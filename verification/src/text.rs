//! Character-level scanning primitives shared by the extractors: substring
//! containment (exact and ASCII-case-insensitive), first occurrence of a
//! character, and ASCII whitespace trimming. Specifications speak about the
//! `Seq<char>` views of `&str` values.

use vstd::prelude::*;
use vstd::string::*;

verus! {

/// An ASCII decimal digit.
pub open spec fn is_digit_char(c: char) -> bool {
    '0' <= c && c <= '9'
}

/// ASCII whitespace: space, tab, line feed, carriage return, form feed.
pub open spec fn is_space_char(c: char) -> bool {
    c == ' ' || c == '\t' || c == '\n' || c == '\r' || c == '\u{c}'
}

/// `pat` occurs in `hay` starting exactly at index `i`.
pub open spec fn match_at(hay: Seq<char>, pat: Seq<char>, i: int) -> bool {
    0 <= i && i + pat.len() <= hay.len() && hay.subrange(i, i + pat.len()) == pat
}

/// `pat` occurs somewhere in `hay`.
pub open spec fn contains_seq(hay: Seq<char>, pat: Seq<char>) -> bool {
    exists|i: int| match_at(hay, pat, i)
}

/// `a` equals `b` up to ASCII case, where `b` is a lowercase letter.
pub open spec fn char_eq_ci(a: char, b: char) -> bool {
    a == b || ('A' <= a && a <= 'Z' && a as u32 + 32 == b as u32)
}

/// `pat` (all lowercase ASCII) occurs at index `i` of `hay` up to ASCII case.
pub open spec fn match_ci_at(hay: Seq<char>, pat: Seq<char>, i: int) -> bool {
    0 <= i && i + pat.len() <= hay.len() && forall|j: int|
        0 <= j < pat.len() ==> char_eq_ci(hay[i + j], pat[j])
}

/// `pat` (all lowercase ASCII) occurs somewhere in `hay` up to ASCII case.
pub open spec fn contains_ci(hay: Seq<char>, pat: Seq<char>) -> bool {
    exists|i: int| match_ci_at(hay, pat, i)
}

/// Index of the first occurrence of `c` in `s`, or `-1` if absent.
pub open spec fn first_pos(s: Seq<char>, c: char) -> int
    decreases s.len(),
{
    if s.len() == 0 {
        -1
    } else if s[0] == c {
        0
    } else if first_pos(s.drop_first(), c) < 0 {
        -1
    } else {
        1 + first_pos(s.drop_first(), c)
    }
}

pub proof fn lemma_first_pos_found(s: Seq<char>, c: char)
    requires
        first_pos(s, c) >= 0,
    ensures
        first_pos(s, c) < s.len(),
        s[first_pos(s, c)] == c,
        forall|j: int| 0 <= j < first_pos(s, c) ==> s[j] != c,
    decreases s.len(),
{
    if s.len() == 0 {
    } else if s[0] == c {
    } else {
        lemma_first_pos_found(s.drop_first(), c);
        assert forall|j: int| 0 <= j < first_pos(s, c) implies s[j] != c by {
            if j > 0 {
                assert(s.drop_first()[j - 1] == s[j]);
            }
        }
    }
}

pub proof fn lemma_first_pos_at(s: Seq<char>, c: char, i: int)
    requires
        0 <= i < s.len(),
        s[i] == c,
        forall|j: int| 0 <= j < i ==> s[j] != c,
    ensures
        first_pos(s, c) == i,
    decreases s.len(),
{
    if i == 0 {
    } else {
        assert(s.drop_first()[i - 1] == s[i]);
        assert forall|j: int| 0 <= j < i - 1 implies s.drop_first()[j] != c by {
            assert(s.drop_first()[j] == s[j + 1]);
        }
        lemma_first_pos_at(s.drop_first(), c, i - 1);
    }
}

/// Whether `c` is an ASCII whitespace character.
pub fn is_space(c: char) -> (r: bool)
    ensures
        r == is_space_char(c),
{
    c == ' ' || c == '\t' || c == '\n' || c == '\r' || c == '\u{c}'
}

/// Whether `c` is an ASCII decimal digit.
pub fn is_digit(c: char) -> (r: bool)
    ensures
        r == is_digit_char(c),
{
    '0' <= c && c <= '9'
}

/// Index of the first occurrence of `c` in `s`, if any.
pub fn find_first(s: &str, c: char) -> (r: Option<usize>)
    ensures
        match r {
            Some(i) => first_pos(s@, c) == i as int,
            None => first_pos(s@, c) < 0,
        },
{
    let n = s.unicode_len();
    let mut i: usize = 0;
    while i < n
        invariant
            n == s@.len(),
            0 <= i <= n,
            forall|j: int| 0 <= j < i ==> s@[j] != c,
        decreases n - i,
    {
        if s.get_char(i) == c {
            proof {
                lemma_first_pos_at(s@, c, i as int);
            }
            return Some(i);
        }
        i += 1;
    }
    proof {
        if first_pos(s@, c) >= 0 {
            lemma_first_pos_found(s@, c);
        }
    }
    None
}

/// Whether `pat` occurs in `hay` starting at index `i`.
pub(crate) fn matches_here(hay: &str, pat: &str, i: usize) -> (r: bool)
    requires
        i + pat@.len() <= hay@.len(),
        hay@.len() <= usize::MAX,
    ensures
        r == match_at(hay@, pat@, i as int),
{
    let m = pat.unicode_len();
    let mut j: usize = 0;
    while j < m
        invariant
            m == pat@.len(),
            i + m <= hay@.len(),
            hay@.len() <= usize::MAX,
            0 <= j <= m,
            forall|k: int| 0 <= k < j ==> hay@[i + k] == pat@[k],
        decreases m - j,
    {
        if hay.get_char(i + j) != pat.get_char(j) {
            proof {
                if match_at(hay@, pat@, i as int) {
                    assert(hay@.subrange(i as int, i + m)[j as int] == pat@[j as int]);
                }
            }
            return false;
        }
        j += 1;
    }
    proof {
        assert(hay@.subrange(i as int, i + m) =~= pat@);
    }
    true
}

/// Whether `hay` contains `pat` as a substring.
pub fn contains_str(hay: &str, pat: &str) -> (r: bool)
    ensures
        r == contains_seq(hay@, pat@),
{
    let n = hay.unicode_len();
    let m = pat.unicode_len();
    if m > n {
        return false;
    }
    if m == 0 {
        proof {
            assert(hay@.subrange(0, 0) =~= pat@);
            assert(match_at(hay@, pat@, 0));
        }
        return true;
    }
    let mut i: usize = 0;
    while i <= n - m
        invariant
            n == hay@.len(),
            m == pat@.len(),
            0 < m <= n,
            0 <= i <= n - m + 1,
            forall|k: int| 0 <= k < i ==> !match_at(hay@, pat@, k),
        decreases n - i,
    {
        if matches_here(hay, pat, i) {
            return true;
        }
        i += 1;
    }
    false
}

/// Whether `a` matches lowercase letter `b` up to ASCII case.
fn chars_match_ci(a: char, b: char) -> (r: bool)
    ensures
        r == char_eq_ci(a, b),
{
    if a == b {
        true
    } else if 'A' <= a && a <= 'Z' {
        (a as u32) + 32 == (b as u32)
    } else {
        false
    }
}

/// Whether `pat` occurs in `hay` at index `i`, up to ASCII case.
fn matches_here_ci(hay: &str, pat: &str, i: usize) -> (r: bool)
    requires
        i + pat@.len() <= hay@.len(),
        hay@.len() <= usize::MAX,
    ensures
        r == match_ci_at(hay@, pat@, i as int),
{
    let m = pat.unicode_len();
    let mut j: usize = 0;
    while j < m
        invariant
            m == pat@.len(),
            i + m <= hay@.len(),
            hay@.len() <= usize::MAX,
            0 <= j <= m,
            forall|k: int| 0 <= k < j ==> char_eq_ci(hay@[i + k], pat@[k]),
        decreases m - j,
    {
        if !chars_match_ci(hay.get_char(i + j), pat.get_char(j)) {
            return false;
        }
        j += 1;
    }
    true
}

/// Whether `hay` contains `pat` (all lowercase ASCII) up to ASCII case.
pub fn contains_str_ci(hay: &str, pat: &str) -> (r: bool)
    ensures
        r == contains_ci(hay@, pat@),
{
    let n = hay.unicode_len();
    let m = pat.unicode_len();
    if m > n {
        return false;
    }
    if m == 0 {
        proof {
            assert(match_ci_at(hay@, pat@, 0));
        }
        return true;
    }
    let mut i: usize = 0;
    while i <= n - m
        invariant
            n == hay@.len(),
            m == pat@.len(),
            0 < m <= n,
            0 <= i <= n - m + 1,
            forall|k: int| 0 <= k < i ==> !match_ci_at(hay@, pat@, k),
        decreases n - i,
    {
        if matches_here_ci(hay, pat, i) {
            return true;
        }
        i += 1;
    }
    false
}

/// `p` is a prefix of `s`.
pub open spec fn has_prefix(s: Seq<char>, p: Seq<char>) -> bool {
    p.len() <= s.len() && s.take(p.len() as int) == p
}

/// Whether `p` is a prefix of `s`.
pub fn str_starts_with(s: &str, p: &str) -> (r: bool)
    ensures
        r == has_prefix(s@, p@),
{
    let n = s.unicode_len();
    let m = p.unicode_len();
    if m > n {
        return false;
    }
    let r = matches_here(s, p, 0);
    proof {
        assert(s@.take(m as int) =~= s@.subrange(0, m as int));
    }
    r
}

/// Whether two string slices hold the same characters.
pub fn str_eq(a: &str, b: &str) -> (r: bool)
    ensures
        r == (a@ == b@),
{
    let n = a.unicode_len();
    let m = b.unicode_len();
    if n != m {
        return false;
    }
    let mut i: usize = 0;
    while i < n
        invariant
            n == a@.len(),
            n == b@.len(),
            0 <= i <= n,
            forall|j: int| 0 <= j < i ==> a@[j] == b@[j],
        decreases n - i,
    {
        if a.get_char(i) != b.get_char(i) {
            return false;
        }
        i += 1;
    }
    proof {
        assert(a@ =~= b@);
    }
    true
}

/// Count of leading ASCII whitespace characters.
pub open spec fn space_prefix_len(s: Seq<char>) -> nat
    decreases s.len(),
{
    if s.len() == 0 || !is_space_char(s[0]) {
        0
    } else {
        1 + space_prefix_len(s.drop_first())
    }
}

/// Count of trailing ASCII whitespace characters.
pub open spec fn space_suffix_len(s: Seq<char>) -> nat
    decreases s.len(),
{
    if s.len() == 0 || !is_space_char(s.last()) {
        0
    } else {
        1 + space_suffix_len(s.drop_last())
    }
}

/// `s` with leading and trailing ASCII whitespace removed.
pub open spec fn trim_spec(s: Seq<char>) -> Seq<char> {
    if space_prefix_len(s) == s.len() {
        Seq::empty()
    } else {
        s.subrange(space_prefix_len(s) as int, s.len() - space_suffix_len(s) as int)
    }
}

pub proof fn lemma_space_prefix_at(s: Seq<char>, i: int)
    requires
        0 <= i <= s.len(),
        forall|j: int| 0 <= j < i ==> is_space_char(s[j]),
        i == s.len() || !is_space_char(s[i]),
    ensures
        space_prefix_len(s) == i,
    decreases s.len(),
{
    if i == 0 {
    } else {
        assert(is_space_char(s[0]));
        assert forall|j: int| 0 <= j < i - 1 implies is_space_char(s.drop_first()[j]) by {
            assert(s.drop_first()[j] == s[j + 1]);
        }
        if i < s.len() {
            assert(s.drop_first()[i - 1] == s[i]);
        }
        lemma_space_prefix_at(s.drop_first(), i - 1);
    }
}

pub proof fn lemma_space_suffix_at(s: Seq<char>, k: int)
    requires
        0 <= k <= s.len(),
        forall|j: int| s.len() - k <= j < s.len() ==> is_space_char(s[j]),
        k == s.len() || !is_space_char(s[s.len() - 1 - k]),
    ensures
        space_suffix_len(s) == k,
    decreases s.len(),
{
    if k == 0 {
    } else {
        assert(is_space_char(s.last()));
        assert forall|j: int| s.len() - 1 - (k - 1) <= j < s.len() - 1 implies is_space_char(
            s.drop_last()[j],
        ) by {
            assert(s.drop_last()[j] == s[j]);
        }
        if k < s.len() {
            assert(s.drop_last()[s.len() - 2 - (k - 1)] == s[s.len() - 1 - k]);
        }
        lemma_space_suffix_at(s.drop_last(), k - 1);
    }
}

/// `s` with leading and trailing ASCII whitespace removed.
pub fn str_trim<'a>(s: &'a str) -> (r: &'a str)
    ensures
        r@ == trim_spec(s@),
{
    let n = s.unicode_len();
    let mut a: usize = 0;
    while a < n && is_space(s.get_char(a))
        invariant
            n == s@.len(),
            0 <= a <= n,
            forall|j: int| 0 <= j < a ==> is_space_char(s@[j]),
        decreases n - a,
    {
        a += 1;
    }
    proof {
        lemma_space_prefix_at(s@, a as int);
    }
    if a == n {
        let r = "";
        proof {
            reveal_strlit("");
            assert(r@ =~= trim_spec(s@));
        }
        return r;
    }
    let mut b: usize = n;
    while b > a && is_space(s.get_char(b - 1))
        invariant
            n == s@.len(),
            a <= b <= n,
            a < n,
            !is_space_char(s@[a as int]),
            forall|j: int| b <= j < n ==> is_space_char(s@[j]),
        decreases b,
    {
        b -= 1;
    }
    proof {
        if b == a {
            assert(is_space_char(s@[a as int]));
        }
        lemma_space_suffix_at(s@, n - b);
    }
    s.substring_char(a, b)
}

} // verus!
