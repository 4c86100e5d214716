//! Verified helpers over strings viewed as sequences of characters:
//! equality, character search, prefix tests, and path joining.

use vstd::prelude::*;

verus! {

/// Character-wise string equality.
pub fn str_eq(a: &str, b: &str) -> (r: bool)
    ensures
        r == (a@ == b@),
{
    let alen = a.unicode_len();
    let blen = b.unicode_len();
    if alen != blen {
        return false;
    }
    let mut i: usize = 0;
    while i < alen
        invariant
            alen == a@.len(),
            alen == b@.len(),
            0 <= i <= alen,
            forall|j: int| 0 <= j < i ==> a@[j] == b@[j],
        decreases alen - i,
    {
        if a.get_char(i) != b.get_char(i) {
            return false;
        }
        i += 1;
    }
    proof {
        assert(a@ =~= b@);
    }
    true
}

/// `i` is the position of the first occurrence of `c` in `s`.
pub open spec fn is_first_index(s: Seq<char>, c: char, i: int) -> bool {
    0 <= i < s.len() && s[i] == c && (forall|j: int| 0 <= j < i ==> s[j] != c)
}

/// `i` is the position of the last occurrence of `c` in `s`.
pub open spec fn is_last_index(s: Seq<char>, c: char, i: int) -> bool {
    0 <= i < s.len() && s[i] == c && (forall|j: int| i < j < s.len() ==> s[j] != c)
}

/// The position of the first occurrence of `c` in `s`, if any.
pub open spec fn spec_find(s: Seq<char>, c: char) -> Option<int> {
    if exists|i: int| is_first_index(s, c, i) {
        Some(choose|i: int| is_first_index(s, c, i))
    } else {
        None
    }
}

/// The position of the last occurrence of `c` in `s`, if any.
pub open spec fn spec_rfind(s: Seq<char>, c: char) -> Option<int> {
    if exists|i: int| is_last_index(s, c, i) {
        Some(choose|i: int| is_last_index(s, c, i))
    } else {
        None
    }
}

pub proof fn lemma_first_index_unique(s: Seq<char>, c: char, i1: int, i2: int)
    requires
        is_first_index(s, c, i1),
        is_first_index(s, c, i2),
    ensures
        i1 == i2,
{
    if i1 < i2 {
        assert(s[i1] != c);
    }
    if i2 < i1 {
        assert(s[i2] != c);
    }
}

pub proof fn lemma_last_index_unique(s: Seq<char>, c: char, i1: int, i2: int)
    requires
        is_last_index(s, c, i1),
        is_last_index(s, c, i2),
    ensures
        i1 == i2,
{
    if i1 < i2 {
        assert(s[i2] != c);
    }
    if i2 < i1 {
        assert(s[i1] != c);
    }
}

/// Index of the first occurrence of `c` in `s`, if any.
pub fn find_char(s: &str, c: char) -> (r: Option<usize>)
    ensures
        match r {
            Some(i) => spec_find(s@, c) == Some(i as int) && is_first_index(s@, c, i as int),
            None => spec_find(s@, c) is None && (forall|j: int|
                0 <= j < s@.len() ==> s@[j] != c),
        },
{
    let len = s.unicode_len();
    let mut i: usize = 0;
    while i < len
        invariant
            len == s@.len(),
            0 <= i <= len,
            forall|j: int| 0 <= j < i ==> s@[j] != c,
        decreases len - i,
    {
        if s.get_char(i) == c {
            proof {
                assert(is_first_index(s@, c, i as int));
                let w = choose|k: int| is_first_index(s@, c, k);
                lemma_first_index_unique(s@, c, w, i as int);
            }
            return Some(i);
        }
        i += 1;
    }
    proof {
        if exists|k: int| is_first_index(s@, c, k) {
            let w = choose|k: int| is_first_index(s@, c, k);
            assert(s@[w] != c);
        }
    }
    None
}

/// Index of the last occurrence of `c` in `s`, if any.
pub fn rfind_char(s: &str, c: char) -> (r: Option<usize>)
    ensures
        match r {
            Some(i) => spec_rfind(s@, c) == Some(i as int) && is_last_index(s@, c, i as int),
            None => spec_rfind(s@, c) is None && (forall|j: int|
                0 <= j < s@.len() ==> s@[j] != c),
        },
{
    let len = s.unicode_len();
    let mut i: usize = len;
    while i > 0
        invariant
            len == s@.len(),
            0 <= i <= len,
            forall|j: int| i <= j < len ==> s@[j] != c,
        decreases i,
    {
        i -= 1;
        if s.get_char(i) == c {
            proof {
                assert(is_last_index(s@, c, i as int));
                let w = choose|k: int| is_last_index(s@, c, k);
                lemma_last_index_unique(s@, c, w, i as int);
            }
            return Some(i);
        }
    }
    proof {
        if exists|k: int| is_last_index(s@, c, k) {
            let w = choose|k: int| is_last_index(s@, c, k);
            assert(s@[w] != c);
        }
    }
    None
}

/// How one path is joined below another: an absolute `rel` replaces `dir`,
/// an empty `rel` leaves `dir` as it is, and otherwise the two are joined
/// with a single separator.
pub open spec fn spec_path_join(dir: Seq<char>, rel: Seq<char>) -> Seq<char> {
    if rel.len() == 0 {
        dir
    } else if rel[0] == '/' {
        rel
    } else if dir.len() == 0 {
        rel
    } else if dir[dir.len() - 1] == '/' {
        dir + rel
    } else {
        dir + seq!['/'] + rel
    }
}

/// Joins `rel` below `dir`.
pub fn path_join(dir: &str, rel: &str) -> (r: String)
    ensures
        r@ == spec_path_join(dir@, rel@),
{
    let rlen = rel.unicode_len();
    let dlen = dir.unicode_len();
    if rlen == 0 {
        return dir.to_owned();
    }
    if rel.get_char(0) == '/' {
        return rel.to_owned();
    }
    if dlen == 0 {
        return rel.to_owned();
    }
    if dir.get_char(dlen - 1) == '/' {
        let mut s = dir.to_owned();
        s.append(rel);
        return s;
    }
    let mut s = dir.to_owned();
    s.append("/");
    s.append(rel);
    proof {
        reveal_strlit("/");
        assert(s@ =~= dir@ + seq!['/'] + rel@);
    }
    s
}

/// Whether `p` is a prefix of `s`.
pub fn starts_with(s: &str, p: &str) -> (r: bool)
    ensures
        r == (s@.len() >= p@.len() && s@.subrange(0, p@.len() as int) == p@),
{
    let slen = s.unicode_len();
    let plen = p.unicode_len();
    if slen < plen {
        return false;
    }
    let mut i: usize = 0;
    while i < plen
        invariant
            slen == s@.len(),
            plen == p@.len(),
            plen <= slen,
            0 <= i <= plen,
            forall|j: int| 0 <= j < i ==> s@[j] == p@[j],
        decreases plen - i,
    {
        if s.get_char(i) != p.get_char(i) {
            proof {
                assert(s@.subrange(0, p@.len() as int)[i as int] != p@[i as int]);
            }
            return false;
        }
        i += 1;
    }
    proof {
        assert(s@.subrange(0, p@.len() as int) =~= p@);
    }
    true
}

} // verus!
