//! The rule engine: deny rules parsed from `Op(path)` strings, executable
//! exclusions, and the queries the overlay consults on every access.

use vstd::prelude::*;

use crate::config::Settings;
use crate::globs::glob_match;
use crate::globs::glob_match_str;
use crate::globs::glob_pattern_valid;
use crate::globs::glob_valid;
use crate::strutil::find_char;
use crate::strutil::path_join;
use crate::strutil::rfind_char;
use crate::strutil::spec_find;
use crate::strutil::spec_path_join;
use crate::strutil::spec_rfind;
use crate::strutil::starts_with;
use crate::strutil::str_eq;

verus! {

/// The kind of access an operation performs.
#[derive(Clone, Copy, Debug, PartialEq, Eq, Structural)]
pub enum Operation {
    Read,
    Write,
    Execute,
}

/// A path a rule refers to: an exact path, or a glob pattern matched with
/// the options stated at `globs::glob_match`.
#[derive(Debug, Clone)]
pub enum PathPattern {
    Exact(String),
    Glob(String),
}

/// The mathematical value of a `PathPattern`.
pub enum PatternModel {
    Exact(Seq<char>),
    Glob(Seq<char>),
}

impl View for PathPattern {
    type V = PatternModel;

    open spec fn view(&self) -> PatternModel {
        match self {
            PathPattern::Exact(p) => PatternModel::Exact(p@),
            PathPattern::Glob(p) => PatternModel::Glob(p@),
        }
    }
}

/// One deny rule: an operation and the paths it is denied on.
#[derive(Debug, Clone)]
pub struct DenyRule {
    pub operation: Operation,
    pub pattern: PathPattern,
}

/// The mathematical value of a `DenyRule`.
pub struct RuleModel {
    pub operation: Operation,
    pub pattern: PatternModel,
}

impl View for DenyRule {
    type V = RuleModel;

    open spec fn view(&self) -> RuleModel {
        RuleModel { operation: self.operation, pattern: self.pattern@ }
    }
}

/// Why a rule or exclusion string was rejected.
#[derive(Debug)]
pub enum RuleParseError {
    /// No `(` and `)` pair with a non-empty path between them; carries the
    /// whole rule string.
    InvalidFormat(String),
    /// The part before the first `(` names no operation; carries that part.
    UnknownOperation(String),
    /// A glob-classified path that the pattern compiler rejects; carries
    /// the resolved pattern string.
    InvalidGlob(String),
}

/// The mathematical value of a `RuleParseError`.
pub enum ParseErrorModel {
    InvalidFormat(Seq<char>),
    UnknownOperation(Seq<char>),
    InvalidGlob(Seq<char>),
}

impl View for RuleParseError {
    type V = ParseErrorModel;

    open spec fn view(&self) -> ParseErrorModel {
        match self {
            RuleParseError::InvalidFormat(s) => ParseErrorModel::InvalidFormat(s@),
            RuleParseError::UnknownOperation(s) => ParseErrorModel::UnknownOperation(s@),
            RuleParseError::InvalidGlob(s) => ParseErrorModel::InvalidGlob(s@),
        }
    }
}

impl RuleParseError {
    /// A one-line description of the error.
    pub fn message(&self) -> (r: String)
        ensures
            r@ == match self@ {
                ParseErrorModel::InvalidFormat(s) => "invalid deny rule format: "@ + s,
                ParseErrorModel::UnknownOperation(s) => "unknown operation: "@ + s,
                ParseErrorModel::InvalidGlob(s) => "invalid glob pattern: "@ + s,
            },
    {
        match self {
            RuleParseError::InvalidFormat(s) => {
                let mut m = String::new();
                m.append("invalid deny rule format: ");
                m.append(s.as_str());
                m
            },
            RuleParseError::UnknownOperation(s) => {
                let mut m = String::new();
                m.append("unknown operation: ");
                m.append(s.as_str());
                m
            },
            RuleParseError::InvalidGlob(s) => {
                let mut m = String::new();
                m.append("invalid glob pattern: ");
                m.append(s.as_str());
                m
            },
        }
    }
}

/// Whether `s` is classified as a glob pattern: it holds one of `*`, `?`,
/// `[`.
pub open spec fn has_glob_meta(s: Seq<char>) -> bool {
    exists|i: int| 0 <= i < s.len() && (s[i] == '*' || s[i] == '?' || s[i] == '[')
}

/// Whether `p` starts with `./`.
pub open spec fn dot_slash_prefixed(p: Seq<char>) -> bool {
    p.len() >= 2 && p[0] == '.' && p[1] == '/'
}

/// Whether `p` starts with `../`.
pub open spec fn dot_dot_slash_prefixed(p: Seq<char>) -> bool {
    p.len() >= 3 && p[0] == '.' && p[1] == '.' && p[2] == '/'
}

/// How a rule path is resolved against the working directory: a `./`
/// prefix is stripped and the rest joined below `cwd`; a path starting
/// with `../` is joined below `cwd` as it stands; anything else is taken
/// verbatim.
pub open spec fn spec_resolve_path(cwd: Seq<char>, p: Seq<char>) -> Seq<char> {
    if dot_slash_prefixed(p) {
        spec_path_join(cwd, p.skip(2))
    } else if dot_dot_slash_prefixed(p) {
        spec_path_join(cwd, p)
    } else {
        p
    }
}

/// How a resolved path is classified into a pattern.
pub open spec fn spec_classify(resolved: Seq<char>) -> PatternModel {
    if has_glob_meta(resolved) {
        PatternModel::Glob(resolved)
    } else {
        PatternModel::Exact(resolved)
    }
}

/// The operation named by the part before the first `(`.
pub open spec fn spec_operation_of(s: Seq<char>) -> Option<Operation> {
    if s == "Read"@ {
        Some(Operation::Read)
    } else if s == "Write"@ {
        Some(Operation::Write)
    } else if s == "Execute"@ {
        Some(Operation::Execute)
    } else {
        None
    }
}

/// The meaning of one deny-rule string `Op(path)`: the operation stands
/// before the first `(`, the path between it and the last `)`.
pub open spec fn spec_parse_rule(entry: Seq<char>, cwd: Seq<char>) -> Result<
    RuleModel,
    ParseErrorModel,
> {
    match (spec_find(entry, '('), spec_rfind(entry, ')')) {
        (Some(open), Some(close)) => {
            if close <= open + 1 {
                Err(ParseErrorModel::InvalidFormat(entry))
            } else {
                let op_str = entry.subrange(0, open);
                let path_str = entry.subrange(open + 1, close);
                match spec_operation_of(op_str) {
                    Some(op) => {
                        let resolved = spec_resolve_path(cwd, path_str);
                        if has_glob_meta(resolved) && !glob_valid(resolved) {
                            Err(ParseErrorModel::InvalidGlob(resolved))
                        } else {
                            Ok(RuleModel { operation: op, pattern: spec_classify(resolved) })
                        }
                    },
                    None => Err(ParseErrorModel::UnknownOperation(op_str)),
                }
            }
        },
        _ => Err(ParseErrorModel::InvalidFormat(entry)),
    }
}

/// The meaning of one executable-exclusion string: the same path
/// resolution and classification as a rule path, without the `Op(...)`
/// wrapper.
pub open spec fn spec_parse_exclusion(exe: Seq<char>, cwd: Seq<char>) -> Result<
    PatternModel,
    ParseErrorModel,
> {
    let resolved = spec_resolve_path(cwd, exe);
    if has_glob_meta(resolved) && !glob_valid(resolved) {
        Err(ParseErrorModel::InvalidGlob(resolved))
    } else {
        Ok(spec_classify(resolved))
    }
}

/// Resolves a rule path against the working directory.
pub fn resolve_path(cwd: &str, p: &str) -> (r: String)
    ensures
        r@ == spec_resolve_path(cwd@, p@),
{
    if starts_with(p, "./") {
        proof {
            reveal_strlit("./");
            assert(p@.subrange(0, 2)[0] == p@[0]);
            assert(p@.subrange(0, 2)[1] == p@[1]);
        }
        let rest = p.substring_char(2, p.unicode_len());
        proof {
            assert(rest@ =~= p@.skip(2));
        }
        path_join(cwd, rest)
    } else if starts_with(p, "../") {
        proof {
            reveal_strlit("./");
            reveal_strlit("../");
            assert(p@.subrange(0, 3)[0] == p@[0]);
            assert(p@.subrange(0, 3)[1] == p@[1]);
            assert(p@.subrange(0, 3)[2] == p@[2]);
            if dot_slash_prefixed(p@) {
                assert(p@.subrange(0, 2) =~= "./"@);
            }
        }
        path_join(cwd, p)
    } else {
        proof {
            reveal_strlit("./");
            reveal_strlit("../");
            if dot_slash_prefixed(p@) {
                assert(p@.subrange(0, 2) =~= "./"@);
            }
            if dot_dot_slash_prefixed(p@) {
                assert(p@.subrange(0, 3) =~= "../"@);
            }
        }
        p.to_owned()
    }
}

/// Whether the string holds a glob metacharacter.
pub fn contains_glob_meta(s: &str) -> (r: bool)
    ensures
        r == has_glob_meta(s@),
{
    let len = s.unicode_len();
    let mut i: usize = 0;
    while i < len
        invariant
            len == s@.len(),
            0 <= i <= len,
            forall|j: int| 0 <= j < i ==> !(s@[j] == '*' || s@[j] == '?' || s@[j] == '['),
        decreases len - i,
    {
        let c = s.get_char(i);
        if c == '*' || c == '?' || c == '[' {
            return true;
        }
        i += 1;
    }
    false
}

/// Resolves and classifies a path string, rejecting an ill-formed glob.
fn classify_path(resolved: String) -> (r: Result<PathPattern, RuleParseError>)
    ensures
        match r {
            Ok(p) => p@ == spec_classify(resolved@) && !(has_glob_meta(resolved@)
                && !glob_valid(resolved@)),
            Err(e) => has_glob_meta(resolved@) && !glob_valid(resolved@) && e@
                == ParseErrorModel::InvalidGlob(resolved@),
        },
{
    if contains_glob_meta(resolved.as_str()) {
        if glob_pattern_valid(resolved.as_str()) {
            Ok(PathPattern::Glob(resolved))
        } else {
            Err(RuleParseError::InvalidGlob(resolved))
        }
    } else {
        Ok(PathPattern::Exact(resolved))
    }
}

/// Parses one deny-rule string against the working directory.
pub fn parse_deny_rule(entry: &str, cwd: &str) -> (r: Result<DenyRule, RuleParseError>)
    ensures
        match r {
            Ok(rule) => spec_parse_rule(entry@, cwd@) == Ok::<RuleModel, ParseErrorModel>(rule@),
            Err(e) => spec_parse_rule(entry@, cwd@) == Err::<RuleModel, ParseErrorModel>(e@),
        },
{
    let open_opt = find_char(entry, '(');
    let close_opt = rfind_char(entry, ')');
    let open: usize;
    let close: usize;
    match (open_opt, close_opt) {
        (Some(o), Some(c)) => {
            open = o;
            close = c;
        },
        _ => {
            return Err(RuleParseError::InvalidFormat(entry.to_owned()));
        },
    }
    if close <= open {
        return Err(RuleParseError::InvalidFormat(entry.to_owned()));
    }
    if close - open <= 1 {
        return Err(RuleParseError::InvalidFormat(entry.to_owned()));
    }
    let op_str = entry.substring_char(0, open);
    let path_str = entry.substring_char(open + 1, close);
    let operation: Operation;
    if str_eq(op_str, "Read") {
        operation = Operation::Read;
    } else if str_eq(op_str, "Write") {
        operation = Operation::Write;
    } else if str_eq(op_str, "Execute") {
        operation = Operation::Execute;
    } else {
        return Err(RuleParseError::UnknownOperation(op_str.to_owned()));
    }
    let resolved = resolve_path(cwd, path_str);
    match classify_path(resolved) {
        Ok(pattern) => Ok(DenyRule { operation, pattern }),
        Err(e) => Err(e),
    }
}

/// Parses one executable-exclusion string against the working directory.
fn parse_exclusion(exe: &str, cwd: &str) -> (r: Result<PathPattern, RuleParseError>)
    ensures
        match r {
            Ok(p) => spec_parse_exclusion(exe@, cwd@) == Ok::<PatternModel, ParseErrorModel>(p@),
            Err(e) => spec_parse_exclusion(exe@, cwd@) == Err::<PatternModel, ParseErrorModel>(
                e@,
            ),
        },
{
    let resolved = resolve_path(cwd, exe);
    classify_path(resolved)
}

/// The models of a sequence of rules.
pub open spec fn rule_models(rules: Seq<DenyRule>) -> Seq<RuleModel> {
    Seq::new(rules.len(), |i: int| rules[i]@)
}

/// The models of a sequence of patterns.
pub open spec fn pattern_models(pats: Seq<PathPattern>) -> Seq<PatternModel> {
    Seq::new(pats.len(), |i: int| pats[i]@)
}

/// The rules built from a list of deny-rule strings, or the error of the
/// first string that does not parse.
pub open spec fn spec_build_rules(deny: Seq<Seq<char>>, cwd: Seq<char>) -> Result<
    Seq<RuleModel>,
    ParseErrorModel,
>
    decreases deny.len(),
{
    if deny.len() == 0 {
        Ok(Seq::empty())
    } else {
        match spec_build_rules(deny.drop_last(), cwd) {
            Ok(pre) => match spec_parse_rule(deny.last(), cwd) {
                Ok(rm) => Ok(pre.push(rm)),
                Err(e) => Err(e),
            },
            Err(e) => Err(e),
        }
    }
}

/// The exclusion patterns built from a list of exclusion strings, or the
/// error of the first string that does not resolve.
pub open spec fn spec_build_exclusions(exes: Seq<Seq<char>>, cwd: Seq<char>) -> Result<
    Seq<PatternModel>,
    ParseErrorModel,
>
    decreases exes.len(),
{
    if exes.len() == 0 {
        Ok(Seq::empty())
    } else {
        match spec_build_exclusions(exes.drop_last(), cwd) {
            Ok(pre) => match spec_parse_exclusion(exes.last(), cwd) {
                Ok(pm) => Ok(pre.push(pm)),
                Err(e) => Err(e),
            },
            Err(e) => Err(e),
        }
    }
}

/// What `AccessRules::new` builds from its inputs: all deny rules in
/// order, then all exclusions in order; the first failure wins, with every
/// deny-rule failure before any exclusion failure.
pub open spec fn spec_build(
    deny: Seq<Seq<char>>,
    exes: Seq<Seq<char>>,
    cwd: Seq<char>,
) -> Result<RulesModel, ParseErrorModel> {
    match spec_build_rules(deny, cwd) {
        Ok(rs) => match spec_build_exclusions(exes, cwd) {
            Ok(es) => Ok(RulesModel { rules: rs, excluded: es }),
            Err(e) => Err(e),
        },
        Err(e) => Err(e),
    }
}

/// An error among the first `k` deny strings settles the whole build.
proof fn lemma_build_rules_err_extends(deny: Seq<Seq<char>>, cwd: Seq<char>, k: int)
    requires
        0 <= k <= deny.len(),
        spec_build_rules(deny.subrange(0, k), cwd) is Err,
    ensures
        spec_build_rules(deny, cwd) == spec_build_rules(deny.subrange(0, k), cwd),
    decreases deny.len() - k,
{
    if k < deny.len() {
        assert(deny.subrange(0, k + 1).drop_last() =~= deny.subrange(0, k));
        lemma_build_rules_err_extends(deny, cwd, k + 1);
    } else {
        assert(deny.subrange(0, deny.len() as int) =~= deny);
    }
}

/// An error among the first `k` exclusion strings settles the whole build.
proof fn lemma_build_exclusions_err_extends(exes: Seq<Seq<char>>, cwd: Seq<char>, k: int)
    requires
        0 <= k <= exes.len(),
        spec_build_exclusions(exes.subrange(0, k), cwd) is Err,
    ensures
        spec_build_exclusions(exes, cwd) == spec_build_exclusions(exes.subrange(0, k), cwd),
    decreases exes.len() - k,
{
    if k < exes.len() {
        assert(exes.subrange(0, k + 1).drop_last() =~= exes.subrange(0, k));
        lemma_build_exclusions_err_extends(exes, cwd, k + 1);
    } else {
        assert(exes.subrange(0, exes.len() as int) =~= exes);
    }
}

/// Whether a pattern matches a path: an exact pattern by equality of the
/// two strings, a glob pattern by glob matching.
pub open spec fn pattern_matches(p: PatternModel, path: Seq<char>) -> bool {
    match p {
        PatternModel::Exact(e) => e == path,
        PatternModel::Glob(g) => glob_match(g, path),
    }
}

/// Whether some rule with operation `op` matches `path`.
pub open spec fn spec_denies(rules: Seq<RuleModel>, path: Seq<char>, op: Operation) -> bool {
    exists|i: int|
        0 <= i < rules.len() && rules[i].operation == op && pattern_matches(
            rules[i].pattern,
            path,
        )
}

/// Whether some exclusion pattern matches `exe`.
pub open spec fn spec_excludes(excluded: Seq<PatternModel>, exe: Seq<char>) -> bool {
    exists|i: int| 0 <= i < excluded.len() && pattern_matches(excluded[i], exe)
}

/// Whether the pattern matches the path.
fn match_pattern(p: &PathPattern, path: &str) -> (r: bool)
    ensures
        r == pattern_matches(p@, path@),
{
    match p {
        PathPattern::Exact(e) => str_eq(e.as_str(), path),
        PathPattern::Glob(g) => glob_match_str(g.as_str(), path),
    }
}

/// The deny rules and executable exclusions the overlay enforces.
/// Constructed once from the configuration and read-only afterwards.
#[derive(Debug, Clone)]
pub struct AccessRules {
    rules: Vec<DenyRule>,
    excluded_executables: Vec<PathPattern>,
}

/// The mathematical value of an `AccessRules`.
pub struct RulesModel {
    pub rules: Seq<RuleModel>,
    pub excluded: Seq<PatternModel>,
}

impl View for AccessRules {
    type V = RulesModel;

    closed spec fn view(&self) -> RulesModel {
        RulesModel { rules: rule_models(self.rules@), excluded: pattern_models(
            self.excluded_executables@,
        ) }
    }
}

impl AccessRules {
    /// Builds the rule set from the configured deny strings and the
    /// executable exclusions, resolving relative paths against `cwd`.
    pub fn new(settings: &Settings, cwd: &str, excluded_execs: Vec<String>) -> (r: Result<
        AccessRules,
        RuleParseError,
    >)
        ensures
            match r {
                Ok(ar) => spec_build(
                    settings.permissions.deny.deep_view(),
                    excluded_execs.deep_view(),
                    cwd@,
                ) == Ok::<RulesModel, ParseErrorModel>(ar@),
                Err(e) => spec_build(
                    settings.permissions.deny.deep_view(),
                    excluded_execs.deep_view(),
                    cwd@,
                ) == Err::<RulesModel, ParseErrorModel>(e@),
            },
    {
        let ghost deny_v = settings.permissions.deny.deep_view();
        let ghost exes_v = excluded_execs.deep_view();
        let mut rules: Vec<DenyRule> = Vec::new();
        proof {
            assert(deny_v.subrange(0, 0) =~= Seq::<Seq<char>>::empty());
            assert(rule_models(rules@) =~= Seq::<RuleModel>::empty());
        }
        let n = settings.permissions.deny.len();
        let mut i: usize = 0;
        while i < n
            invariant
                n == settings.permissions.deny.len(),
                deny_v == settings.permissions.deny.deep_view(),
                0 <= i <= n,
                spec_build_rules(deny_v.subrange(0, i as int), cwd@) == Ok::<
                    Seq<RuleModel>,
                    ParseErrorModel,
                >(rule_models(rules@)),
            decreases n - i,
        {
            let entry = &settings.permissions.deny[i];
            proof {
                assert(deny_v[i as int] == entry@);
                assert(deny_v.subrange(0, i + 1).drop_last() =~= deny_v.subrange(0, i as int));
                assert(deny_v.subrange(0, i + 1).last() == deny_v[i as int]);
            }
            match parse_deny_rule(entry.as_str(), cwd) {
                Ok(rule) => {
                    let ghost prev = rules@;
                    rules.push(rule);
                    proof {
                        assert(rules@.drop_last() =~= prev);
                        assert(rule_models(rules@) =~= rule_models(prev).push(rule@));
                    }
                },
                Err(e) => {
                    proof {
                        assert(spec_build_rules(deny_v.subrange(0, i + 1), cwd@) == Err::<
                            Seq<RuleModel>,
                            ParseErrorModel,
                        >(e@));
                        lemma_build_rules_err_extends(deny_v, cwd@, i + 1);
                    }
                    return Err(e);
                },
            }
            i += 1;
        }
        proof {
            assert(deny_v.subrange(0, n as int) =~= deny_v);
        }
        let mut excluded_executables: Vec<PathPattern> = Vec::new();
        proof {
            assert(exes_v.subrange(0, 0) =~= Seq::<Seq<char>>::empty());
            assert(pattern_models(excluded_executables@) =~= Seq::<PatternModel>::empty());
        }
        let m = excluded_execs.len();
        let mut k: usize = 0;
        while k < m
            invariant
                m == excluded_execs.len(),
                exes_v == excluded_execs.deep_view(),
                deny_v == settings.permissions.deny.deep_view(),
                0 <= k <= m,
                spec_build_exclusions(exes_v.subrange(0, k as int), cwd@) == Ok::<
                    Seq<PatternModel>,
                    ParseErrorModel,
                >(pattern_models(excluded_executables@)),
                spec_build_rules(deny_v, cwd@) == Ok::<Seq<RuleModel>, ParseErrorModel>(
                    rule_models(rules@),
                ),
            decreases m - k,
        {
            let exe = &excluded_execs[k];
            proof {
                assert(exes_v[k as int] == exe@);
                assert(exes_v.subrange(0, k + 1).drop_last() =~= exes_v.subrange(0, k as int));
                assert(exes_v.subrange(0, k + 1).last() == exes_v[k as int]);
            }
            match parse_exclusion(exe.as_str(), cwd) {
                Ok(pat) => {
                    let ghost prev = excluded_executables@;
                    excluded_executables.push(pat);
                    proof {
                        assert(excluded_executables@.drop_last() =~= prev);
                        assert(pattern_models(excluded_executables@) =~= pattern_models(
                            prev,
                        ).push(pat@));
                    }
                },
                Err(e) => {
                    proof {
                        assert(spec_build_exclusions(exes_v.subrange(0, k + 1), cwd@) == Err::<
                            Seq<PatternModel>,
                            ParseErrorModel,
                        >(e@));
                        lemma_build_exclusions_err_extends(exes_v, cwd@, k + 1);
                    }
                    return Err(e);
                },
            }
            k += 1;
        }
        proof {
            assert(exes_v.subrange(0, m as int) =~= exes_v);
        }
        Ok(AccessRules { rules, excluded_executables })
    }

    /// The paths the deny rules refer to: the exact path of an exact
    /// pattern, the pattern string of a glob pattern, in rule order. This
    /// is the mount planner's input.
    pub fn denied_paths(&self) -> (r: Vec<String>)
        ensures
            r@.len() == self@.rules.len(),
            forall|i: int| 0 <= i < r@.len() ==> r@[i]@ == pattern_path(#[trigger] self@.rules[i].pattern),
    {
        let mut out: Vec<String> = Vec::new();
        let n = self.rules.len();
        let mut i: usize = 0;
        while i < n
            invariant
                n == self.rules.len(),
                0 <= i <= n,
                out@.len() == i,
                forall|j: int| 0 <= j < i ==> out@[j]@ == pattern_path(#[trigger] self@.rules[j].pattern),
            decreases n - i,
        {
            let p = match &self.rules[i].pattern {
                PathPattern::Exact(p) => p.clone(),
                PathPattern::Glob(g) => g.clone(),
            };
            out.push(p);
            i += 1;
        }
        out
    }

    /// Whether any rule denies operation `op` on `path`.
    pub fn is_denied(&self, path: &str, op: Operation) -> (r: bool)
        ensures
            r == spec_denies(self@.rules, path@, op),
    {
        let n = self.rules.len();
        let mut i: usize = 0;
        while i < n
            invariant
                n == self.rules.len(),
                0 <= i <= n,
                forall|j: int|
                    0 <= j < i ==> !(#[trigger] self@.rules[j].operation == op
                        && pattern_matches(self@.rules[j].pattern, path@)),
            decreases n - i,
        {
            let rule = &self.rules[i];
            if rule.operation == op {
                if match_pattern(&rule.pattern, path) {
                    proof {
                        assert(self@.rules[i as int].operation == op && pattern_matches(
                            self@.rules[i as int].pattern,
                            path@,
                        ));
                    }
                    return true;
                }
            }
            i += 1;
        }
        false
    }

    /// Whether any exclusion pattern matches the executable path.
    pub fn is_executable_excluded(&self, exe_path: &str) -> (r: bool)
        ensures
            r == spec_excludes(self@.excluded, exe_path@),
    {
        let n = self.excluded_executables.len();
        let mut i: usize = 0;
        while i < n
            invariant
                n == self.excluded_executables.len(),
                0 <= i <= n,
                forall|j: int|
                    0 <= j < i ==> !pattern_matches(#[trigger] self@.excluded[j], exe_path@),
            decreases n - i,
        {
            if match_pattern(&self.excluded_executables[i], exe_path) {
                proof {
                    assert(pattern_matches(self@.excluded[i as int], exe_path@));
                }
                return true;
            }
            i += 1;
        }
        false
    }
}

/// The path a rule pattern refers to: the exact path, or the glob pattern
/// string itself.
pub open spec fn pattern_path(p: PatternModel) -> Seq<char> {
    match p {
        PatternModel::Exact(e) => e,
        PatternModel::Glob(g) => g,
    }
}

/// A rule set built from one parsed rule string denies a path under the
/// rule's operation exactly when the rule's pattern matches the path, and
/// denies nothing under any other operation.
pub proof fn lemma_parsed_rule_denies(
    entry: Seq<char>,
    cwd: Seq<char>,
    rm: RuleModel,
    path: Seq<char>,
    other: Operation,
)
    requires
        spec_parse_rule(entry, cwd) == Ok::<RuleModel, ParseErrorModel>(rm),
    ensures
        spec_denies(seq![rm], path, rm.operation) == pattern_matches(rm.pattern, path),
        other != rm.operation ==> !spec_denies(seq![rm], path, other),
{
    let rs = seq![rm];
    if pattern_matches(rm.pattern, path) {
        assert(rs[0].operation == rm.operation && pattern_matches(rs[0].pattern, path));
    }
    if spec_denies(rs, path, rm.operation) {
        let i = choose|i: int|
            0 <= i < rs.len() && rs[i].operation == rm.operation && pattern_matches(
                rs[i].pattern,
                path,
            );
        assert(i == 0);
    }
    if other != rm.operation && spec_denies(rs, path, other) {
        let i = choose|i: int|
            0 <= i < rs.len() && rs[i].operation == other && pattern_matches(rs[i].pattern, path);
        assert(i == 0);
        assert(false);
    }
}

/// A `./x` rule path resolves to `x` joined directly below the working
/// directory: for an ordinary working directory (non-empty, no trailing
/// separator) and a relative remainder, the denied exact path is
/// `cwd/x`, with no `./` left in it.
pub proof fn lemma_dot_slash_resolution(cwd: Seq<char>, p: Seq<char>)
    requires
        dot_slash_prefixed(p),
        cwd.len() > 0,
        cwd[cwd.len() - 1] != '/',
        p.skip(2).len() > 0,
        p.skip(2)[0] != '/',
    ensures
        spec_resolve_path(cwd, p) == cwd + seq!['/'] + p.skip(2),
{
}

/// Rule construction is a pure function of the deny-rule strings, the
/// exclusion strings and the working directory: two builds from the same
/// inputs give the same rules and exclusions, or the same error.
pub proof fn lemma_rule_construction_pure(
    deny: Seq<Seq<char>>,
    exes: Seq<Seq<char>>,
    cwd: Seq<char>,
    a: Result<RulesModel, ParseErrorModel>,
    b: Result<RulesModel, ParseErrorModel>,
)
    requires
        a == spec_build(deny, exes, cwd),
        b == spec_build(deny, exes, cwd),
    ensures
        a == b,
{
}

} // verus!
