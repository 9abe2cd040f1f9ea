//! Verified text utilities: substring search, trimming, and splitting over
//! `&str` values, specified against their `Seq<char>` views.

use vstd::prelude::*;

verus! {

/// Whitespace as the library trims it: the Unicode `White_Space` characters.
pub open spec fn is_ws_char(c: char) -> bool {
    let u = c as u32;
    u == 0x20 || (0x09 <= u && u <= 0x0d) || u == 0x85 || u == 0xa0 || u == 0x1680 || (0x2000
        <= u && u <= 0x200a) || u == 0x2028 || u == 0x2029 || u == 0x202f || u == 0x205f || u
        == 0x3000
}

/// Runtime check for [`is_ws_char`].
pub fn is_ws(c: char) -> (r: bool)
    ensures
        r == is_ws_char(c),
{
    let u = c as u32;
    u == 0x20 || (0x09 <= u && u <= 0x0d) || u == 0x85 || u == 0xa0 || u == 0x1680 || (0x2000
        <= u && u <= 0x200a) || u == 0x2028 || u == 0x2029 || u == 0x202f || u == 0x205f || u
        == 0x3000
}

/// `pat` occurs in `s` starting at position `i`.
pub open spec fn match_at(s: Seq<char>, pat: Seq<char>, i: int) -> bool {
    0 <= i && i + pat.len() <= s.len() && s.subrange(i, i + pat.len()) == pat
}

/// Position of the first occurrence of `pat` in `s`, or `-1` when there is none.
pub open spec fn find_sub(s: Seq<char>, pat: Seq<char>) -> int
    decreases s.len(),
{
    if pat.len() == 0 {
        0
    } else if s.len() < pat.len() {
        -1
    } else if s.subrange(0, pat.len() as int) == pat {
        0
    } else if find_sub(s.drop_first(), pat) == -1 {
        -1
    } else {
        1 + find_sub(s.drop_first(), pat)
    }
}

/// `find_sub` finds exactly the first occurrence: a hit is a match, nothing
/// earlier matches, and a miss means no position matches.
pub proof fn lemma_find_sub(s: Seq<char>, pat: Seq<char>)
    ensures
        find_sub(s, pat) >= -1,
        find_sub(s, pat) == -1 ==> forall|i: int| !match_at(s, pat, i),
        find_sub(s, pat) >= 0 ==> match_at(s, pat, find_sub(s, pat)),
        find_sub(s, pat) >= 0 ==> forall|i: int| 0 <= i < find_sub(s, pat) ==> !match_at(
            s,
            pat,
            i,
        ),
    decreases s.len(),
{
    if pat.len() == 0 {
        assert(s.subrange(0, 0) =~= pat);
        assert(match_at(s, pat, 0));
    } else if s.len() < pat.len() {
        assert forall|i: int| !match_at(s, pat, i) by {}
    } else if s.subrange(0, pat.len() as int) == pat {
    } else {
        let t = s.drop_first();
        lemma_find_sub(t, pat);
        if find_sub(t, pat) == -1 {
            assert forall|i: int| !match_at(s, pat, i) by {
                if 1 <= i && i + pat.len() <= s.len() {
                    assert(t.subrange(i - 1, i - 1 + pat.len()) =~= s.subrange(
                        i,
                        i + pat.len(),
                    ));
                    assert(!match_at(t, pat, i - 1));
                }
            }
        } else {
            let r = find_sub(t, pat);
            assert(match_at(t, pat, r));
            assert(t.subrange(r, r + pat.len()) =~= s.subrange(r + 1, r + 1 + pat.len()));
            assert(match_at(s, pat, r + 1));
            assert forall|i: int| 0 <= i < r + 1 implies !match_at(s, pat, i) by {
                if i >= 1 {
                    assert(t.subrange(i - 1, i - 1 + pat.len()) =~= s.subrange(
                        i,
                        i + pat.len(),
                    ));
                    assert(!match_at(t, pat, i - 1));
                }
            }
        }
    }
}

/// First occurrence of `pat` in `s` at runtime; `None` exactly when `pat`
/// does not occur in `s`.
pub fn find_str(s: &str, pat: &str) -> (r: Option<usize>)
    ensures
        match r {
            Some(i) => find_sub(s@, pat@) == i as int,
            None => find_sub(s@, pat@) == -1,
        },
{
    proof {
        lemma_find_sub(s@, pat@);
    }
    let slen = s.unicode_len();
    let plen = pat.unicode_len();
    if plen > slen {
        return None;
    }
    let mut i: usize = 0;
    while i <= slen - plen
        invariant
            plen <= slen,
            i <= slen - plen + 1,
            slen == s@.len(),
            plen == pat@.len(),
            forall|j: int| 0 <= j < i ==> !match_at(s@, pat@, j),
        decreases slen - i,
    {
        let mut k: usize = 0;
        while k < plen && s.get_char(i + k) == pat.get_char(k)
            invariant
                i + plen <= slen,
                k <= plen,
                slen == s@.len(),
                plen == pat@.len(),
                forall|t: int| 0 <= t < k ==> s@[i + t] == pat@[t],
            decreases plen - k,
        {
            k += 1;
        }
        if k == plen {
            proof {
                assert(s@.subrange(i as int, i + plen) =~= pat@);
                assert(match_at(s@, pat@, i as int));
                lemma_find_sub(s@, pat@);
                if find_sub(s@, pat@) == -1 {
                    assert(!match_at(s@, pat@, i as int));
                }
                if find_sub(s@, pat@) < i {
                    assert(!match_at(s@, pat@, find_sub(s@, pat@)));
                }
                if find_sub(s@, pat@) > i {
                    assert(!match_at(s@, pat@, i as int));
                }
            }
            return Some(i);
        }
        proof {
            if match_at(s@, pat@, i as int) {
                assert(s@.subrange(i as int, i + plen)[k as int] == pat@[k as int]);
                assert(s@[i + k] == pat@[k as int]);
            }
        }
        i += 1;
    }
    proof {
        assert forall|j: int| !match_at(s@, pat@, j) by {
            if i <= j && j + plen <= slen {
                assert(false);
            }
        }
        lemma_find_sub(s@, pat@);
        if find_sub(s@, pat@) >= 0 {
            assert(!match_at(s@, pat@, find_sub(s@, pat@)));
        }
    }
    None
}

/// Whether `pat` occurs anywhere in `s`.
pub fn contains_str(s: &str, pat: &str) -> (r: bool)
    ensures
        r == (find_sub(s@, pat@) >= 0),
{
    proof {
        lemma_find_sub(s@, pat@);
    }
    find_str(s, pat).is_some()
}

/// Character-wise string equality.
pub fn str_eq(a: &str, b: &str) -> (r: bool)
    ensures
        r == (a@ == b@),
{
    let alen = a.unicode_len();
    let blen = b.unicode_len();
    if alen != blen {
        proof {
            assert(a@.len() != b@.len());
        }
        return false;
    }
    let mut i: usize = 0;
    while i < alen
        invariant
            i <= alen,
            alen == a@.len(),
            alen == b@.len(),
            forall|j: int| 0 <= j < i ==> a@[j] == b@[j],
        decreases alen - i,
    {
        if a.get_char(i) != b.get_char(i) {
            return false;
        }
        i += 1;
    }
    proof {
        assert(a@ =~= b@);
    }
    true
}

/// `s` with leading whitespace removed.
pub open spec fn spec_trim_start(s: Seq<char>) -> Seq<char>
    decreases s.len(),
{
    if s.len() > 0 && is_ws_char(s[0]) {
        spec_trim_start(s.drop_first())
    } else {
        s
    }
}

/// `s` with trailing whitespace removed.
pub open spec fn spec_trim_end(s: Seq<char>) -> Seq<char>
    decreases s.len(),
{
    if s.len() > 0 && is_ws_char(s.last()) {
        spec_trim_end(s.drop_last())
    } else {
        s
    }
}

/// `s` with surrounding whitespace removed.
pub open spec fn spec_trim(s: Seq<char>) -> Seq<char> {
    spec_trim_end(spec_trim_start(s))
}

proof fn lemma_trim_start_at(s: Seq<char>, i: int)
    requires
        0 <= i <= s.len(),
        forall|j: int| 0 <= j < i ==> is_ws_char(s[j]),
        i == s.len() || !is_ws_char(s[i]),
    ensures
        spec_trim_start(s) == s.subrange(i, s.len() as int),
    decreases i,
{
    if i == 0 {
        if !(s.len() > 0 && is_ws_char(s[0])) {
            assert(s.subrange(0, s.len() as int) =~= s);
        }
    } else {
        let t = s.drop_first();
        lemma_trim_start_at(t, i - 1);
        assert(t.subrange(i - 1, t.len() as int) =~= s.subrange(i, s.len() as int));
    }
}

proof fn lemma_trim_end_at(s: Seq<char>, i: int)
    requires
        0 <= i <= s.len(),
        forall|j: int| i <= j < s.len() ==> is_ws_char(s[j]),
        i == 0 || !is_ws_char(s[i - 1]),
    ensures
        spec_trim_end(s) == s.subrange(0, i),
    decreases s.len() - i,
{
    if i == s.len() {
        if !(s.len() > 0 && is_ws_char(s.last())) {
            assert(s.subrange(0, i) =~= s);
        } else {
            let t = s.drop_last();
            lemma_trim_end_at(t, i - 1);
            assert(t.subrange(0, i - 1) =~= s.subrange(0, i - 1));
            assert(i as nat == s.len());
            assert(false);
        }
    } else {
        assert(is_ws_char(s.last()));
        let t = s.drop_last();
        lemma_trim_end_at(t, i);
        assert(t.subrange(0, i) =~= s.subrange(0, i));
    }
}

/// `s` without its surrounding whitespace, as [`spec_trim`] describes.
pub fn trim_str(s: &str) -> (r: &str)
    ensures
        r@ == spec_trim(s@),
{
    let len = s.unicode_len();
    let mut a: usize = 0;
    while a < len && is_ws(s.get_char(a))
        invariant
            a <= len,
            len == s@.len(),
            forall|j: int| 0 <= j < a ==> is_ws_char(s@[j]),
        decreases len - a,
    {
        a += 1;
    }
    let mut b: usize = len;
    while b > a && is_ws(s.get_char(b - 1))
        invariant
            a <= b <= len,
            len == s@.len(),
            forall|j: int| b <= j < len ==> is_ws_char(s@[j]),
        decreases b,
    {
        b -= 1;
    }
    proof {
        lemma_trim_start_at(s@, a as int);
        let u = s@.subrange(a as int, s@.len() as int);
        lemma_trim_end_at(u, b - a);
        assert(u.subrange(0, b - a) =~= s@.subrange(a as int, b as int));
    }
    s.substring_char(a, b)
}

/// Position of the last occurrence of `c` in `s`, or `-1` when there is none.
pub open spec fn find_last_char(s: Seq<char>, c: char) -> int
    decreases s.len(),
{
    if s.len() == 0 {
        -1
    } else if s.last() == c {
        s.len() - 1
    } else {
        find_last_char(s.drop_last(), c)
    }
}

/// `find_last_char` finds exactly the last occurrence.
pub proof fn lemma_find_last_char(s: Seq<char>, c: char)
    ensures
        find_last_char(s, c) >= -1,
        find_last_char(s, c) < s.len(),
        find_last_char(s, c) == -1 ==> forall|i: int| 0 <= i < s.len() ==> s[i] != c,
        find_last_char(s, c) >= 0 ==> s[find_last_char(s, c)] == c,
        find_last_char(s, c) >= 0 ==> forall|i: int|
            find_last_char(s, c) < i < s.len() ==> s[i] != c,
    decreases s.len(),
{
    if s.len() == 0 {
    } else if s.last() == c {
    } else {
        let t = s.drop_last();
        lemma_find_last_char(t, c);
        assert(forall|i: int| 0 <= i < t.len() ==> t[i] == s[i]);
        if find_last_char(t, c) == -1 {
            assert forall|i: int| 0 <= i < s.len() implies s[i] != c by {
                if i < s.len() - 1 {
                    assert(t[i] != c);
                } else {
                    assert(s[i] == s.last());
                }
            }
        } else {
            let r = find_last_char(t, c);
            assert(s[r] == t[r]);
            assert forall|i: int| r < i < s.len() implies s[i] != c by {
                if i < s.len() - 1 {
                    assert(t[i] != c);
                } else {
                    assert(s[i] == s.last());
                }
            }
        }
    }
}

/// Last occurrence of `c` in `s` at runtime; `None` exactly when `c` does not
/// occur in `s`.
pub fn rfind_char(s: &str, c: char) -> (r: Option<usize>)
    ensures
        match r {
            Some(i) => find_last_char(s@, c) == i as int,
            None => find_last_char(s@, c) == -1,
        },
{
    proof {
        lemma_find_last_char(s@, c);
    }
    let len = s.unicode_len();
    let mut b: usize = len;
    while b > 0
        invariant
            b <= len,
            len == s@.len(),
            forall|j: int| b <= j < len ==> s@[j] != c,
        decreases b,
    {
        if s.get_char(b - 1) == c {
            proof {
                lemma_find_last_char(s@, c);
                if find_last_char(s@, c) == -1 {
                    assert(s@[b - 1] != c);
                }
                if find_last_char(s@, c) > b - 1 {
                    assert(s@[find_last_char(s@, c)] != c);
                }
                if 0 <= find_last_char(s@, c) < b - 1 {
                    assert(s@[b - 1] != c);
                }
            }
            return Some(b - 1);
        }
        b -= 1;
    }
    proof {
        if find_last_char(s@, c) >= 0 {
            assert(s@[find_last_char(s@, c)] != c);
        }
    }
    None
}

/// The pieces of `s` split on every occurrence of `pat`, in order, separators
/// removed; a string without an occurrence is one piece.
pub open spec fn split_sub(s: Seq<char>, pat: Seq<char>) -> Seq<Seq<char>>
    decreases s.len(),
{
    let i = find_sub(s, pat);
    if pat.len() == 0 || i < 0 || i + pat.len() > s.len() {
        seq![s]
    } else {
        seq![s.subrange(0, i)] + split_sub(s.subrange(i + pat.len(), s.len() as int), pat)
    }
}

} // verus!
