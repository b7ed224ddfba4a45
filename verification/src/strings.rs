//! String helpers shared by the expression compiler and app-id substitution.
//!
//! Specifications speak of `Seq<char>` views; the executable functions walk
//! characters with the vstd string operations.
use vstd::prelude::*;
use vstd::string::StrSliceExecFns;

verus! {

/// First index at or after the start of `s` holding `c`.
pub open spec fn find_char(s: Seq<char>, c: char) -> Option<int>
    decreases s.len(),
{
    if s.len() == 0 {
        None
    } else if s[0] == c {
        Some(0int)
    } else {
        match find_char(s.skip(1), c) {
            None => None,
            Some(i) => Some(i + 1),
        }
    }
}

pub proof fn lemma_find_char(s: Seq<char>, c: char)
    ensures
        match find_char(s, c) {
            Some(i) => 0 <= i < s.len() && s[i] == c && (forall|j: int| 0 <= j < i ==> s[j] != c),
            None => forall|j: int| 0 <= j < s.len() ==> s[j] != c,
        },
    decreases s.len(),
{
    if s.len() > 0 && s[0] != c {
        lemma_find_char(s.skip(1), c);
        assert(forall|j: int| 0 <= j < s.len() - 1 ==> s.skip(1)[j] == s[j + 1]);
        match find_char(s.skip(1), c) {
            Some(i) => {
                assert(find_char(s, c) == Some(i + 1));
                assert(s[i + 1] == s.skip(1)[i]);
                assert forall|j: int| 0 <= j < i + 1 implies s[j] != c by {
                    if j > 0 {
                        assert(s[j] == s.skip(1)[j - 1]);
                    }
                }
            },
            None => {
                assert forall|j: int| 0 <= j < s.len() implies s[j] != c by {
                    if j > 0 {
                        assert(s[j] == s.skip(1)[j - 1]);
                    }
                }
            },
        }
    }
}

/// The characterization pins `find_char` down: a position holding `c` with
/// nothing earlier is the one `find_char` returns.
pub proof fn lemma_find_char_is(s: Seq<char>, c: char, i: int)
    requires
        0 <= i < s.len(),
        s[i] == c,
        forall|j: int| 0 <= j < i ==> s[j] != c,
    ensures
        find_char(s, c) == Some(i),
    decreases s.len(),
{
    if i > 0 {
        lemma_find_char_is(s.skip(1), c, i - 1);
    }
}

pub proof fn lemma_find_char_none(s: Seq<char>, c: char)
    requires
        forall|j: int| 0 <= j < s.len() ==> s[j] != c,
    ensures
        find_char(s, c) is None,
{
    lemma_find_char(s, c);
    if let Some(i) = find_char(s, c) {
        assert(s[i] == c);
    }
}

/// Whether `pat` occurs in `s` starting at index `i`.
pub open spec fn matches_at(s: Seq<char>, pat: Seq<char>, i: int) -> bool {
    0 <= i && i + pat.len() <= s.len() && s.subrange(i, i + pat.len()) == pat
}

/// First index where `pat` occurs as a contiguous run of `s`.
pub open spec fn find_sub(s: Seq<char>, pat: Seq<char>) -> Option<int>
    decreases s.len(),
{
    if s.len() < pat.len() {
        None
    } else if s.subrange(0, pat.len() as int) == pat {
        Some(0int)
    } else if s.len() == 0 {
        None
    } else {
        match find_sub(s.skip(1), pat) {
            None => None,
            Some(i) => Some(i + 1),
        }
    }
}

pub proof fn lemma_find_sub(s: Seq<char>, pat: Seq<char>)
    ensures
        match find_sub(s, pat) {
            Some(i) => matches_at(s, pat, i) && (forall|j: int|
                0 <= j < i ==> !matches_at(s, pat, j)),
            None => forall|j: int| !matches_at(s, pat, j),
        },
    decreases s.len(),
{
    if s.len() >= pat.len() && s.subrange(0, pat.len() as int) == pat {
        assert(matches_at(s, pat, 0));
    } else if s.len() > 0 {
        lemma_find_sub(s.skip(1), pat);
        assert forall|j: int| matches_at(s.skip(1), pat, j) == matches_at(s, pat, j + 1) by {
            if 0 <= j && j + 1 + pat.len() <= s.len() {
                assert(s.skip(1).subrange(j, j + pat.len()) =~= s.subrange(
                    j + 1,
                    j + 1 + pat.len(),
                ));
            }
        }
        assert(!matches_at(s, pat, 0));
        match find_sub(s.skip(1), pat) {
            Some(i) => {
                assert(matches_at(s, pat, i + 1));
                assert forall|j: int| 0 <= j < i + 1 implies !matches_at(s, pat, j) by {
                    if j > 0 {
                        assert(!matches_at(s.skip(1), pat, j - 1));
                    }
                }
            },
            None => {
                assert forall|j: int| !matches_at(s, pat, j) by {
                    if j > 0 {
                        assert(!matches_at(s.skip(1), pat, j - 1));
                    }
                }
            },
        }
    } else {
        if pat.len() == 0 {
            assert(s.subrange(0, 0) =~= pat);
        }
        assert(s.len() < pat.len());
        assert(forall|j: int| !matches_at(s, pat, j));
    }
}

pub proof fn lemma_find_sub_is(s: Seq<char>, pat: Seq<char>, i: int)
    requires
        matches_at(s, pat, i),
        forall|j: int| 0 <= j < i ==> !matches_at(s, pat, j),
    ensures
        find_sub(s, pat) == Some(i),
{
    lemma_find_sub(s, pat);
    match find_sub(s, pat) {
        Some(k) => {
            if k < i {
                assert(!matches_at(s, pat, k));
            }
            if i < k {
                assert(!matches_at(s, pat, i));
            }
        },
        None => {
            assert(!matches_at(s, pat, i));
        },
    }
}

/// Whether `pat` occurs at `i` in `s`, as an executable check.
pub fn check_match_at(s: &str, pat: &str, i: usize) -> (r: bool)
    requires
        i + pat@.len() <= s@.len(),
        s@.len() <= usize::MAX,
    ensures
        r == matches_at(s@, pat@, i as int),
{
    let plen = pat.unicode_len();
    let mut j: usize = 0;
    while j < plen
        invariant
            j <= plen,
            plen == pat@.len(),
            i + plen <= s@.len(),
            s@.len() <= usize::MAX,
            forall|k: int| 0 <= k < j ==> s@[i + k] == pat@[k],
        decreases plen - j,
    {
        if s.get_char(i + j) != pat.get_char(j) {
            assert(s@.subrange(i as int, i + pat@.len())[j as int] == s@[i + j]);
            assert(!matches_at(s@, pat@, i as int));
            return false;
        }
        j = j + 1;
    }
    proof {
        assert(s@.subrange(i as int, i + pat@.len()) =~= pat@);
    }
    true
}

/// First occurrence of `pat` in `s`, as an executable scan.
pub fn scan_sub(s: &str, pat: &str) -> (r: Option<usize>)
    ensures
        match r {
            Some(i) => find_sub(s@, pat@) == Some(i as int) && i + pat@.len() <= s@.len(),
            None => find_sub(s@, pat@) is None,
        },
{
    let slen = s.unicode_len();
    let plen = pat.unicode_len();
    if plen == 0 {
        proof {
            assert(s@.subrange(0, 0) =~= pat@);
        }
        return Some(0);
    }
    if slen < plen {
        proof {
            lemma_find_sub(s@, pat@);
            if let Some(i) = find_sub(s@, pat@) {
                assert(matches_at(s@, pat@, i));
            }
        }
        return None;
    }
    let mut i: usize = 0;
    while i <= slen - plen
        invariant
            1 <= plen <= slen,
            slen == s@.len(),
            plen == pat@.len(),
            i <= slen - plen + 1,
            forall|j: int| 0 <= j < i ==> !matches_at(s@, pat@, j),
        decreases slen + 1 - i,
    {
        if check_match_at(s, pat, i) {
            proof {
                lemma_find_sub_is(s@, pat@, i as int);
            }
            return Some(i);
        }
        i = i + 1;
    }
    proof {
        lemma_find_sub(s@, pat@);
        if let Some(k) = find_sub(s@, pat@) {
            assert(matches_at(s@, pat@, k));
            assert(k <= s@.len() - pat@.len());
            assert(!matches_at(s@, pat@, k));
        }
    }
    None
}

/// The third colon-delimited segment of `s`, if `s` has at least three
/// segments; matches taking element two of a split on colons.
pub open spec fn third_segment(s: Seq<char>) -> Option<Seq<char>> {
    match find_char(s, ':') {
        None => None,
        Some(i) => {
            let rest1 = s.skip(i + 1);
            match find_char(rest1, ':') {
                None => None,
                Some(j) => {
                    let rest2 = rest1.skip(j + 1);
                    match find_char(rest2, ':') {
                        None => Some(rest2),
                        Some(k) => Some(rest2.take(k)),
                    }
                },
            }
        },
    }
}

/// Bounds of the third colon-delimited segment of `s`, as executable indices,
/// so that callers can slice the segment out of `s`.
pub fn third_segment_bounds(s: &str) -> (r: Option<(usize, usize)>)
    ensures
        match r {
            Some(b) => {
                &&& third_segment(s@) == Some(s@.subrange(b.0 as int, b.1 as int))
                &&& b.0 <= b.1 <= s@.len()
            },
            None => third_segment(s@) is None,
        },
{
    let len = s.unicode_len();
    let first = match scan_char(s, ':', 0) {
        None => {
            proof {
                assert(s@.skip(0) =~= s@);
            }
            return None;
        },
        Some(i) => i,
    };
    proof {
        assert(s@.skip(0) =~= s@);
    }
    let second = match scan_char(s, ':', first + 1) {
        None => {
            proof {
                assert(s@.skip(first as int).skip(1) =~= s@.skip(first + 1));
            }
            return None;
        },
        Some(j) => j,
    };
    proof {
        assert(s@.skip(first as int).skip(1) =~= s@.skip(first + 1));
        assert(find_char(s@.skip(first + 1), ':') == Some(second - first - 1));
    }
    let start = second + 1;
    let ghost rest2 = s@.skip(first + 1).skip(second - first);
    proof {
        assert(rest2 =~= s@.skip(start as int));
    }
    match scan_char(s, ':', start) {
        None => {
            proof {
                assert(third_segment(s@) == Some(rest2));
                assert(rest2 =~= s@.subrange(start as int, s@.len() as int));
            }
            Some((start, len))
        },
        Some(k) => {
            proof {
                assert(find_char(rest2, ':') == Some(k - start));
                assert(third_segment(s@) == Some(rest2.take(k - start)));
                assert(rest2.take(k - start) =~= s@.subrange(start as int, k as int));
            }
            Some((start, k))
        },
    }
}

/// An exact copy of an optional string.
pub fn clone_opt_string(s: &Option<String>) -> (r: Option<String>)
    ensures
        r == *s,
{
    match s {
        Some(v) => Some(v.clone()),
        None => None,
    }
}

/// Whether some string of the list reads `name`.
pub open spec fn contains_name(names: Seq<String>, name: Seq<char>) -> bool {
    exists|i: int| 0 <= i < names.len() && names[i]@ == name
}

/// Executable twin of `contains_name`.
pub fn name_in_list(names: &Vec<String>, name: &str) -> (r: bool)
    ensures
        r == contains_name(names@, name@),
{
    let mut i: usize = 0;
    while i < names.len()
        invariant
            i <= names@.len(),
            forall|j: int| 0 <= j < i ==> names@[j]@ != name@,
        decreases names@.len() - i,
    {
        if str_eq(names[i].as_str(), name) {
            return true;
        }
        i = i + 1;
    }
    false
}

/// Character-wise equality of two string slices.
pub fn str_eq(a: &str, b: &str) -> (r: bool)
    ensures
        r == (a@ == b@),
{
    let alen = a.unicode_len();
    if alen != b.unicode_len() {
        assert(a@ != b@);
        return false;
    }
    let mut i: usize = 0;
    while i < alen
        invariant
            i <= alen,
            alen == a@.len(),
            alen == b@.len(),
            forall|j: int| 0 <= j < i ==> a@[j] == b@[j],
        decreases alen - i,
    {
        if a.get_char(i) != b.get_char(i) {
            assert(a@ != b@);
            return false;
        }
        i = i + 1;
    }
    proof {
        assert(a@ =~= b@);
    }
    true
}

/// First index at or after `from` where `s` holds `c`, as an executable scan.
pub fn scan_char(s: &str, c: char, from: usize) -> (r: Option<usize>)
    requires
        from <= s@.len(),
    ensures
        match r {
            Some(i) => from <= i < s@.len() && s@[i as int] == c && find_char(
                s@.skip(from as int),
                c,
            ) == Some(i - from),
            None => find_char(s@.skip(from as int), c) is None,
        },
{
    let len = s.unicode_len();
    let mut i: usize = from;
    while i < len
        invariant
            from <= i <= len,
            len == s@.len(),
            forall|j: int| from <= j < i ==> s@[j] != c,
        decreases len - i,
    {
        if s.get_char(i) == c {
            proof {
                let sub = s@.skip(from as int);
                assert(sub[i - from] == s@[i as int]);
                assert forall|j: int| 0 <= j < i - from implies sub[j] != c by {
                    assert(sub[j] == s@[j + from]);
                }
                lemma_find_char_is(sub, c, i - from);
            }
            return Some(i);
        }
        i = i + 1;
    }
    proof {
        let sub = s@.skip(from as int);
        assert forall|j: int| 0 <= j < sub.len() implies sub[j] != c by {
            assert(sub[j] == s@[j + from]);
        }
        lemma_find_char_none(sub, c);
    }
    None
}

} // verus!
