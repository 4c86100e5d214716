//! The mount planner: derives the directories to overlay from the deny
//! rules. Overlaying the parent directory of every denied path suffices to
//! interpose on named opens of the path, and deduplication keeps the
//! number of overlay servers minimal.

use vstd::prelude::*;

use crate::rules::pattern_path;
use crate::rules::AccessRules;
use crate::strutil::rfind_char;
use crate::strutil::spec_rfind;
use crate::strutil::str_eq;

verus! {

/// One overlay mount: the directory that is mirrored and the directory
/// the overlay is mounted on. In this design the two are the same
/// directory, so the mounted namespace is indistinguishable from the
/// original except for access decisions.
#[derive(Debug, Clone)]
pub struct MountPoint {
    pub source: String,
    pub target: String,
}

/// The parent directory of a path: the part before the final component.
/// `/a/b` has parent `/a`, `/a` has parent `/`, a bare name has the empty
/// path as parent, and `/` and the empty path have none.
pub open spec fn spec_parent_dir(p: Seq<char>) -> Option<Seq<char>> {
    if p.len() == 0 || p == seq!['/'] {
        None
    } else {
        match spec_rfind(p, '/') {
            Some(i) => if i == 0 {
                Some(seq!['/'])
            } else {
                Some(p.subrange(0, i))
            },
            None => Some(Seq::empty()),
        }
    }
}

/// The parent directory of a path, if it has one.
pub fn parent_dir(p: &str) -> (r: Option<String>)
    ensures
        match r {
            Some(d) => spec_parent_dir(p@) == Some(d@),
            None => spec_parent_dir(p@) is None,
        },
{
    let len = p.unicode_len();
    if len == 0 {
        return None;
    }
    if len == 1 && p.get_char(0) == '/' {
        proof {
            assert(p@ =~= seq!['/']);
        }
        return None;
    }
    proof {
        if p@ == seq!['/'] {
            assert(p@.len() == 1 && p@[0] == '/');
        }
    }
    match rfind_char(p, '/') {
        Some(i) => {
            if i == 0 {
                let d = String::from_str("/");
                proof {
                    reveal_strlit("/");
                    assert(d@ =~= seq!['/']);
                }
                Some(d)
            } else {
                Some(p.substring_char(0, i).to_owned())
            }
        },
        None => Some(String::new()),
    }
}

/// Whether some mount in the plan has `src` as its source directory.
pub open spec fn plan_has_source(plan: Seq<MountPoint>, src: Seq<char>) -> bool {
    exists|i: int| 0 <= i < plan.len() && (#[trigger] plan[i].source)@ == src
}

/// Whether `src` is the parent of the path of some rule before `bound`.
pub open spec fn is_rule_parent_below(
    rules: &AccessRules,
    bound: int,
    src: Seq<char>,
) -> bool {
    exists|k: int| 0 <= k < bound && (#[trigger] rule_parent(rules, k)) == Some(src)
}

/// Whether some mount in `v` already has this source directory.
fn contains_source(v: &Vec<MountPoint>, d: &str) -> (r: bool)
    ensures
        r == plan_has_source(v@, d@),
{
    let n = v.len();
    let mut i: usize = 0;
    while i < n
        invariant
            n == v@.len(),
            0 <= i <= n,
            forall|j: int| 0 <= j < i ==> (#[trigger] v@[j].source)@ != d@,
        decreases n - i,
    {
        if str_eq(v[i].source.as_str(), d) {
            return true;
        }
        i += 1;
    }
    false
}

/// The parent of the path a rule at index `j` refers to.
pub open spec fn rule_parent(rules: &AccessRules, j: int) -> Option<Seq<char>> {
    spec_parent_dir(pattern_path(rules@.rules[j].pattern))
}

/// Derives the overlay mounts from the deny rules: one mount per distinct
/// parent directory of a denied path, with source and target the same
/// directory. The output is a deduplicated set of exactly the parents of
/// the rules' paths, in first-occurrence order.
pub fn compute_mount_points(rules: &AccessRules) -> (r: Vec<MountPoint>)
    ensures
        forall|i: int| 0 <= i < r@.len() ==> (#[trigger] r@[i].source)@ == r@[i].target@,
        forall|i: int|
            0 <= i < r@.len() ==> is_rule_parent_below(
                rules,
                rules@.rules.len() as int,
                (#[trigger] r@[i].source)@,
            ),
        forall|j: int|
            0 <= j < rules@.rules.len() && (#[trigger] rule_parent(rules, j)) is Some
                ==> (rule_parent(rules, j) matches Some(d) && plan_has_source(r@, d)),
        forall|i1: int, i2: int|
            0 <= i1 < i2 < r@.len() ==> (#[trigger] r@[i1].source)@ != (#[trigger] r@[i2].source)@,
{
    let denied = rules.denied_paths();
    let mut out: Vec<MountPoint> = Vec::new();
    let n = denied.len();
    let mut j: usize = 0;
    while j < n
        invariant
            n == denied@.len(),
            denied@.len() == rules@.rules.len(),
            forall|k: int|
                0 <= k < denied@.len() ==> (#[trigger] denied@[k])@ == pattern_path(
                    rules@.rules[k].pattern,
                ),
            0 <= j <= n,
            forall|i: int| 0 <= i < out@.len() ==> (#[trigger] out@[i].source)@ == out@[i].target@,
            forall|i: int|
                0 <= i < out@.len() ==> is_rule_parent_below(
                    rules,
                    j as int,
                    (#[trigger] out@[i].source)@,
                ),
            forall|k: int|
                0 <= k < j && (#[trigger] rule_parent(rules, k)) is Some ==> (rule_parent(
                    rules,
                    k,
                ) matches Some(d) && plan_has_source(out@, d)),
            forall|i1: int, i2: int|
                0 <= i1 < i2 < out@.len() ==> (#[trigger] out@[i1].source)@ != (#[trigger] out@[i2].source)@,
        decreases n - j,
    {
        proof {
            assert(denied@[j as int]@ == pattern_path(rules@.rules[j as int].pattern));
        }
        match parent_dir(denied[j].as_str()) {
            Some(d) => {
                if !contains_source(&out, d.as_str()) {
                    let ghost prev = out@;
                    let target = d.clone();
                    out.push(MountPoint { source: d, target });
                    proof {
                        assert(out@.len() == prev.len() + 1);
                        assert(out@[prev.len() as int].source@ == out@[prev.len() as int].target@);
                        assert(forall|i: int| 0 <= i < prev.len() ==> out@[i] == prev[i]);
                        assert(rule_parent(rules, j as int) == Some(
                            out@[prev.len() as int].source@,
                        ));
                        assert forall|i: int| 0 <= i < out@.len() implies is_rule_parent_below(
                            rules,
                            j + 1,
                            (#[trigger] out@[i].source)@,
                        ) by {
                            if i < prev.len() {
                                assert(is_rule_parent_below(rules, j as int, out@[i].source@));
                            }
                        }
                        assert forall|k: int|
                            0 <= k < j + 1 && (#[trigger] rule_parent(rules, k)) is Some implies (
                        rule_parent(rules, k) matches Some(dd) && plan_has_source(out@, dd)) by {
                            if k < j {
                                let dd = rule_parent(rules, k)->Some_0;
                                assert(plan_has_source(prev, dd));
                                let i = choose|i: int|
                                    0 <= i < prev.len() && (#[trigger] prev[i].source)@ == dd;
                                assert(out@[i].source@ == dd);
                            } else {
                                assert(out@[prev.len() as int].source@ == d@);
                            }
                        }
                    }
                } else {
                    proof {
                        assert forall|k: int|
                            0 <= k < j + 1 && (#[trigger] rule_parent(rules, k)) is Some implies (
                        rule_parent(rules, k) matches Some(dd) && plan_has_source(out@, dd)) by {
                            if k == j {
                                assert(plan_has_source(out@, d@));
                            }
                        }
                        assert forall|i: int| 0 <= i < out@.len() implies is_rule_parent_below(
                            rules,
                            j + 1,
                            (#[trigger] out@[i].source)@,
                        ) by {
                            assert(is_rule_parent_below(rules, j as int, out@[i].source@));
                        }
                    }
                }
            },
            None => {
                proof {
                    assert forall|i: int| 0 <= i < out@.len() implies is_rule_parent_below(
                        rules,
                        j + 1,
                        (#[trigger] out@[i].source)@,
                    ) by {
                        assert(is_rule_parent_below(rules, j as int, out@[i].source@));
                    }
                }
            },
        }
        j += 1;
    }
    out
}

} // verus!
