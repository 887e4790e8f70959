//! Pattern extractors over already-fetched log tails.
//!
//! A log tail is an ordered sequence of lines, most recent last. The
//! extractors scan it in reverse (most recent first) for domain markers:
//! the block height of the most recent `"Built block #<digits>"` line, and
//! the first percentage token of the most recent line mentioning `sync`.
//! All extractors are pure: the result is a function of the supplied lines
//! alone, and malformed lines are skipped, never a panic.

use vstd::prelude::*;
use vstd::string::*;
use crate::text::{
    contains_ci, contains_seq, contains_str, contains_str_ci, is_digit, is_digit_char, is_space,
    is_space_char,
};

verus! {

/// The marker a block-production line carries.
pub open spec fn built_marker() -> Seq<char> {
    "Built block"@
}

/// Count of leading ASCII digit characters.
pub open spec fn digit_prefix_len(s: Seq<char>) -> nat
    decreases s.len(),
{
    if s.len() == 0 || !is_digit_char(s[0]) {
        0
    } else {
        1 + digit_prefix_len(s.drop_first())
    }
}

pub proof fn lemma_digit_prefix_props(s: Seq<char>)
    ensures
        digit_prefix_len(s) <= s.len(),
        forall|j: int| 0 <= j < digit_prefix_len(s) ==> is_digit_char(s[j]),
        digit_prefix_len(s) < s.len() ==> !is_digit_char(s[digit_prefix_len(s) as int]),
    decreases s.len(),
{
    if s.len() == 0 || !is_digit_char(s[0]) {
    } else {
        lemma_digit_prefix_props(s.drop_first());
        assert forall|j: int| 0 <= j < digit_prefix_len(s) implies is_digit_char(s[j]) by {
            if j > 0 {
                assert(s.drop_first()[j - 1] == s[j]);
            }
        }
        if digit_prefix_len(s) < s.len() {
            assert(s.drop_first()[digit_prefix_len(s) - 1] == s[digit_prefix_len(s) as int]);
        }
    }
}

pub proof fn lemma_digit_prefix_at(s: Seq<char>, k: int)
    requires
        0 <= k <= s.len(),
        forall|j: int| 0 <= j < k ==> is_digit_char(s[j]),
        k == s.len() || !is_digit_char(s[k]),
    ensures
        digit_prefix_len(s) == k,
    decreases s.len(),
{
    if k == 0 {
    } else {
        assert(is_digit_char(s[0]));
        assert forall|j: int| 0 <= j < k - 1 implies is_digit_char(s.drop_first()[j]) by {
            assert(s.drop_first()[j] == s[j + 1]);
        }
        if k < s.len() {
            assert(s.drop_first()[k - 1] == s[k]);
        }
        lemma_digit_prefix_at(s.drop_first(), k - 1);
    }
}

/// Index of the first `#` that is immediately followed by an ASCII digit,
/// or `-1` when `s` has none.
pub open spec fn hash_digit_pos(s: Seq<char>) -> int
    decreases s.len(),
{
    if s.len() < 2 {
        -1
    } else if s[0] == '#' && is_digit_char(s[1]) {
        0
    } else if hash_digit_pos(s.drop_first()) < 0 {
        -1
    } else {
        1 + hash_digit_pos(s.drop_first())
    }
}

pub proof fn lemma_hash_digit_found(s: Seq<char>)
    requires
        hash_digit_pos(s) >= 0,
    ensures
        hash_digit_pos(s) + 1 < s.len(),
        s[hash_digit_pos(s)] == '#',
        is_digit_char(s[hash_digit_pos(s) + 1]),
        forall|j: int|
            0 <= j < hash_digit_pos(s) ==> !((#[trigger] s[j]) == '#' && is_digit_char(s[j + 1])),
    decreases s.len(),
{
    if s.len() < 2 {
    } else if s[0] == '#' && is_digit_char(s[1]) {
    } else {
        lemma_hash_digit_found(s.drop_first());
        assert forall|j: int|
            0 <= j < hash_digit_pos(s) implies !((#[trigger] s[j]) == '#' && is_digit_char(
            s[j + 1],
        )) by {
            if j > 0 {
                assert(s.drop_first()[j - 1] == s[j]);
                assert(s.drop_first()[j] == s[j + 1]);
            } else {
                assert(s.drop_first()[0] == s[1]);
            }
        }
    }
}

pub proof fn lemma_hash_digit_at(s: Seq<char>, i: int)
    requires
        0 <= i,
        i + 1 < s.len(),
        s[i] == '#',
        is_digit_char(s[i + 1]),
        forall|j: int| 0 <= j < i ==> !((#[trigger] s[j]) == '#' && is_digit_char(s[j + 1])),
    ensures
        hash_digit_pos(s) == i,
    decreases s.len(),
{
    if i == 0 {
    } else {
        assert(s.drop_first()[i - 1] == s[i]);
        assert(s.drop_first()[i] == s[i + 1]);
        assert(!(s[0] == '#' && is_digit_char(s[1])));
        assert forall|j: int|
            0 <= j < i - 1 implies !((#[trigger] s.drop_first()[j]) == '#' && is_digit_char(
            s.drop_first()[j + 1],
        )) by {
            assert(s.drop_first()[j] == s[j + 1]);
            assert(s.drop_first()[j + 1] == s[j + 2]);
        }
        lemma_hash_digit_at(s.drop_first(), i - 1);
    }
}

/// The run of ASCII digits following the first `#` of `s` that has one;
/// empty when no `#` is immediately followed by a digit.
pub open spec fn block_digits(s: Seq<char>) -> Seq<char> {
    if hash_digit_pos(s) < 0 {
        Seq::empty()
    } else {
        let t = s.skip(hash_digit_pos(s) + 1);
        t.take(digit_prefix_len(t) as int)
    }
}

pub proof fn lemma_block_digits_all_digits(s: Seq<char>)
    ensures
        forall|j: int| 0 <= j < block_digits(s).len() ==> is_digit_char(block_digits(s)[j]),
{
    if hash_digit_pos(s) >= 0 {
        lemma_hash_digit_found(s);
        let t = s.skip(hash_digit_pos(s) + 1);
        lemma_digit_prefix_props(t);
    }
}

/// The numeric value of a sequence of ASCII digit characters.
pub open spec fn digits_val(s: Seq<char>) -> int
    decreases s.len(),
{
    if s.len() == 0 {
        0
    } else {
        digits_val(s.drop_last()) * 10 + (s.last() as int - 48)
    }
}

pub proof fn lemma_digits_val_nonneg(s: Seq<char>)
    requires
        forall|j: int| 0 <= j < s.len() ==> is_digit_char(s[j]),
    ensures
        digits_val(s) >= 0,
    decreases s.len(),
{
    if s.len() > 0 {
        assert forall|j: int| 0 <= j < s.drop_last().len() implies is_digit_char(
            s.drop_last()[j],
        ) by {
            assert(s.drop_last()[j] == s[j]);
        }
        lemma_digits_val_nonneg(s.drop_last());
    }
}

pub proof fn lemma_digits_val_take_succ(s: Seq<char>, i: int)
    requires
        0 <= i < s.len(),
    ensures
        digits_val(s.take(i + 1)) == digits_val(s.take(i)) * 10 + (s[i] as int - 48),
{
    assert(s.take(i + 1).drop_last() =~= s.take(i));
    assert(s.take(i + 1).last() == s[i]);
}

pub proof fn lemma_digits_val_prefix_mono(s: Seq<char>, i: int)
    requires
        0 <= i <= s.len(),
        forall|j: int| 0 <= j < s.len() ==> is_digit_char(s[j]),
    ensures
        digits_val(s.take(i)) <= digits_val(s),
    decreases s.len() - i,
{
    if i == s.len() {
        assert(s.take(i) =~= s);
    } else {
        assert forall|j: int| 0 <= j < s.take(i).len() implies is_digit_char(s.take(i)[j]) by {
            assert(s.take(i)[j] == s[j]);
        }
        lemma_digits_val_nonneg(s.take(i));
        lemma_digits_val_take_succ(s, i);
        assert(is_digit_char(s[i]));
        lemma_digits_val_prefix_mono(s, i + 1);
    }
}

/// The digit run of a log line such as `"Built block #12345"`: the run
/// following the first `#` that is immediately followed by a digit, or
/// `None` when no `#` in the line is.
pub fn extract_block_number(log_line: &str) -> (r: Option<String>)
    ensures
        match r {
            Some(d) => block_digits(log_line@).len() > 0 && d@ == block_digits(log_line@),
            None => block_digits(log_line@).len() == 0,
        },
{
    let n = log_line.unicode_len();
    if n < 2 {
        return None;
    }
    let mut i: usize = 0;
    while i + 1 < n
        invariant
            n == log_line@.len(),
            2 <= n,
            0 <= i <= n - 1,
            forall|j: int|
                0 <= j < i ==> !((#[trigger] log_line@[j]) == '#' && is_digit_char(
                    log_line@[j + 1],
                )),
        decreases n - i,
    {
        if log_line.get_char(i) == '#' && is_digit(log_line.get_char(i + 1)) {
            proof {
                lemma_hash_digit_at(log_line@, i as int);
            }
            let h = i;
            let mut e: usize = h + 2;
            while e < n && is_digit(log_line.get_char(e))
                invariant
                    n == log_line@.len(),
                    h + 1 < n,
                    h + 2 <= e <= n,
                    forall|j: int| h + 1 <= j < e ==> is_digit_char(log_line@[j]),
                decreases n - e,
            {
                e += 1;
            }
            proof {
                let t = log_line@.skip(h + 1);
                assert forall|j: int| 0 <= j < e - h - 1 implies is_digit_char(t[j]) by {
                    assert(t[j] == log_line@[h + 1 + j]);
                }
                if e < n {
                    assert(t[e - h - 1] == log_line@[e as int]);
                }
                lemma_digit_prefix_at(t, e - h - 1);
                assert(log_line@.subrange(h + 1, e as int) =~= t.take(e - h - 1));
            }
            let d = log_line.substring_char(h + 1, e).to_owned();
            return Some(d);
        }
        i += 1;
    }
    proof {
        if hash_digit_pos(log_line@) >= 0 {
            lemma_hash_digit_found(log_line@);
        }
    }
    None
}

/// Parses a run of ASCII digits as a `u64`; `None` on overflow.
pub(crate) fn parse_digits_u64(d: &str) -> (r: Option<u64>)
    requires
        forall|j: int| 0 <= j < d@.len() ==> is_digit_char(d@[j]),
    ensures
        match r {
            Some(v) => digits_val(d@) == v as int,
            None => digits_val(d@) > u64::MAX,
        },
{
    let n = d.unicode_len();
    let mut acc: u64 = 0;
    let mut i: usize = 0;
    while i < n
        invariant
            n == d@.len(),
            0 <= i <= n,
            forall|j: int| 0 <= j < d@.len() ==> is_digit_char(d@[j]),
            acc as int == digits_val(d@.take(i as int)),
        decreases n - i,
    {
        let c = d.get_char(i);
        assert(is_digit_char(c));
        let dig: u64 = ((c as u32) - 48) as u64;
        proof {
            lemma_digits_val_take_succ(d@, i as int);
        }
        let next = match acc.checked_mul(10) {
            Some(x) => x.checked_add(dig),
            None => None,
        };
        match next {
            Some(y) => {
                acc = y;
            },
            None => {
                proof {
                    assert(digits_val(d@.take(i + 1)) > u64::MAX);
                    lemma_digits_val_prefix_mono(d@, i + 1);
                }
                return None;
            },
        }
        i += 1;
    }
    proof {
        assert(d@.take(n as int) =~= d@);
    }
    Some(acc)
}

/// A line reports a built block: it carries the marker and a `#` followed
/// by at least one digit.
pub open spec fn line_reports_height(l: Seq<char>) -> bool {
    contains_seq(l, built_marker()) && block_digits(l).len() > 0
}

/// The digit run of the most recent line reporting a built block.
pub open spec fn scanned_digits(lines: Seq<Seq<char>>) -> Option<Seq<char>>
    decreases lines.len(),
{
    if lines.len() == 0 {
        None
    } else if line_reports_height(lines.last()) {
        Some(block_digits(lines.last()))
    } else {
        scanned_digits(lines.drop_last())
    }
}

/// The block height extracted from a log tail: the digit run of the most
/// recent line reporting a built block, read as a `u64`; `None` when no
/// line reports one or the digit run overflows a `u64`.
pub open spec fn extracted_height(lines: Seq<Seq<char>>) -> Option<u64> {
    match scanned_digits(lines) {
        None => None,
        Some(d) => if digits_val(d) <= u64::MAX {
            Some(digits_val(d) as u64)
        } else {
            None
        },
    }
}

/// Scans `lines` in reverse (most recent last in the input order) and
/// returns the block height of the most recent line reporting a built
/// block, or `None` when there is none or its digits overflow a `u64`.
pub fn extract_block_height(lines: &Vec<String>) -> (r: Option<u64>)
    ensures
        r == extracted_height(lines.deep_view()),
{
    let ghost dv = lines.deep_view();
    let mut k = lines.len();
    proof {
        assert(dv.take(lines@.len() as int) =~= dv);
    }
    while k > 0
        invariant
            dv == lines.deep_view(),
            dv.len() == lines@.len(),
            0 <= k <= lines@.len(),
            scanned_digits(dv) == scanned_digits(dv.take(k as int)),
        decreases k,
    {
        k -= 1;
        let line = &lines[k];
        proof {
            assert(dv[k as int] == lines@[k as int]@);
            assert(dv.take(k + 1).drop_last() =~= dv.take(k as int));
            assert(dv.take(k + 1).last() == dv[k as int]);
        }
        if contains_str(line.as_str(), "Built block") {
            match extract_block_number(line.as_str()) {
                Some(d) => {
                    proof {
                        assert(line_reports_height(dv[k as int]));
                        assert(scanned_digits(dv) == Some(d@));
                        lemma_block_digits_all_digits(line@);
                    }
                    match parse_digits_u64(d.as_str()) {
                        Some(v) => {
                            return Some(v);
                        },
                        None => {
                            return None;
                        },
                    }
                },
                None => {
                    proof {
                        assert(!line_reports_height(dv[k as int]));
                    }
                },
            }
        } else {
            proof {
                assert(!line_reports_height(dv[k as int]));
            }
        }
    }
    proof {
        assert(dv.take(0) =~= Seq::<Seq<char>>::empty());
    }
    None
}

/// Any log tail with no line carrying the built-block marker yields no
/// height: the extraction is "not found", never a default.
pub proof fn lemma_no_marker_no_height(lines: Seq<Seq<char>>)
    requires
        forall|i: int| 0 <= i < lines.len() ==> !contains_seq(lines[i], built_marker()),
    ensures
        extracted_height(lines) is None,
    decreases lines.len(),
{
    if lines.len() > 0 {
        assert(!contains_seq(lines.last(), built_marker()));
        assert forall|i: int| 0 <= i < lines.drop_last().len() implies !contains_seq(
            lines.drop_last()[i],
            built_marker(),
        ) by {
            assert(lines.drop_last()[i] == lines[i]);
        }
        lemma_no_marker_no_height(lines.drop_last());
    }
}

/// Extraction has no hidden state: the result of a height extraction is a
/// function of the supplied lines alone, so two extractions over the same
/// immutable input are identical.
pub proof fn lemma_height_extraction_idempotent(
    lines: Seq<Seq<char>>,
    r1: Option<u64>,
    r2: Option<u64>,
)
    requires
        r1 == extracted_height(lines),
        r2 == extracted_height(lines),
    ensures
        r1 == r2,
{
}

/// Count of lines carrying the built-block marker.
pub open spec fn marker_line_count(lines: Seq<Seq<char>>) -> int
    decreases lines.len(),
{
    if lines.len() == 0 {
        0
    } else {
        marker_line_count(lines.drop_last()) + if contains_seq(lines.last(), built_marker()) {
            1int
        } else {
            0int
        }
    }
}

/// Counts the lines of a log tail that report a built block, for rate
/// estimation over a fetch window.
pub fn count_built_block_lines(lines: &Vec<String>) -> (r: usize)
    ensures
        r as int == marker_line_count(lines.deep_view()),
{
    let ghost dv = lines.deep_view();
    let mut count: usize = 0;
    let mut i: usize = 0;
    while i < lines.len()
        invariant
            dv == lines.deep_view(),
            dv.len() == lines@.len(),
            0 <= i <= lines@.len(),
            count <= i,
            count as int == marker_line_count(dv.take(i as int)),
        decreases lines@.len() - i,
    {
        proof {
            assert(dv.take(i + 1).drop_last() =~= dv.take(i as int));
            assert(dv.take(i + 1).last() == dv[i as int]);
            assert(dv[i as int] == lines@[i as int]@);
        }
        if contains_str(lines[i].as_str(), "Built block") {
            count += 1;
        }
        i += 1;
    }
    proof {
        assert(dv.take(lines@.len() as int) =~= dv);
    }
    count
}

/// Blocks per minute, in thousandths, from a count of built-block lines
/// observed over a window given in thousandths of a minute. The division
/// truncates. A count of zero always yields a rate of zero: absence of
/// evidence reads as "not producing", never as an error.
pub fn estimate_production_rate(count: u64, window_milli_minutes: u64) -> (r: u64)
    requires
        window_milli_minutes >= 1,
        count <= u64::MAX / 1_000_000,
    ensures
        r as int == (count * 1_000_000) as int / window_milli_minutes as int,
        count == 0 ==> r == 0,
{
    let scaled: u64 = count * 1_000_000;
    scaled / window_milli_minutes
}

/// Count of leading non-whitespace characters.
pub open spec fn nonspace_prefix_len(s: Seq<char>) -> nat
    decreases s.len(),
{
    if s.len() == 0 || is_space_char(s[0]) {
        0
    } else {
        1 + nonspace_prefix_len(s.drop_first())
    }
}

pub proof fn lemma_nonspace_prefix_le(s: Seq<char>)
    ensures
        nonspace_prefix_len(s) <= s.len(),
    decreases s.len(),
{
    if s.len() > 0 && !is_space_char(s[0]) {
        lemma_nonspace_prefix_le(s.drop_first());
    }
}

pub proof fn lemma_nonspace_prefix_at(s: Seq<char>, k: int)
    requires
        0 <= k <= s.len(),
        forall|j: int| 0 <= j < k ==> !is_space_char(s[j]),
        k == s.len() || is_space_char(s[k]),
    ensures
        nonspace_prefix_len(s) == k,
    decreases s.len(),
{
    if k == 0 {
    } else {
        assert(!is_space_char(s[0]));
        assert forall|j: int| 0 <= j < k - 1 implies !is_space_char(s.drop_first()[j]) by {
            assert(s.drop_first()[j] == s[j + 1]);
        }
        if k < s.len() {
            assert(s.drop_first()[k - 1] == s[k]);
        }
        lemma_nonspace_prefix_at(s.drop_first(), k - 1);
    }
}

/// The whitespace-delimited tokens of a line, in order.
pub open spec fn tokens_of(s: Seq<char>) -> Seq<Seq<char>>
    decreases s.len(),
        via tokens_of_dec
{
    if s.len() == 0 {
        Seq::empty()
    } else if is_space_char(s[0]) {
        tokens_of(s.drop_first())
    } else {
        seq![s.take(nonspace_prefix_len(s) as int)] + tokens_of(
            s.skip(nonspace_prefix_len(s) as int),
        )
    }
}

#[via_fn]
proof fn tokens_of_dec(s: Seq<char>) {
    if s.len() > 0 && !is_space_char(s[0]) {
        lemma_nonspace_prefix_le(s);
        assert(nonspace_prefix_len(s) >= 1);
    }
}

/// Length of an optional leading sign.
pub open spec fn sign_len(s: Seq<char>) -> int {
    if s.len() > 0 && (s[0] == '+' || s[0] == '-') {
        1
    } else {
        0
    }
}

/// Length of a mantissa read from the front of `s`: a digit run and,
/// when a dot follows it, the dot and a second digit run.
pub open spec fn mantissa_len(s: Seq<char>) -> int {
    let k = digit_prefix_len(s) as int;
    if k < s.len() && s[k] == '.' {
        k + 1 + digit_prefix_len(s.skip(k + 1)) as int
    } else {
        k
    }
}

/// The mantissa at the front of `s` carries at least one digit, on
/// either side of its optional dot.
pub open spec fn mantissa_has_digits(s: Seq<char>) -> bool {
    let k = digit_prefix_len(s) as int;
    k > 0 || (k < s.len() && s[k] == '.' && digit_prefix_len(s.skip(k + 1)) > 0)
}

/// An exponent part: `e` or `E`, an optional sign, one or more digits
/// reaching the end.
pub open spec fn is_exponent(s: Seq<char>) -> bool {
    s.len() >= 2 && (s[0] == 'e' || s[0] == 'E') && {
        let d = s.skip(1 + sign_len(s.skip(1)));
        d.len() > 0 && forall|j: int| 0 <= j < d.len() ==> is_digit_char(d[j])
    }
}

/// A decimal numeral in the shape the standard float parse accepts for
/// finite values: an optional sign, digits with an optional dot and at
/// least one digit on some side of it, and an optional exponent.
pub open spec fn is_decimal(t: Seq<char>) -> bool {
    let u = t.skip(sign_len(t));
    mantissa_has_digits(u) && (mantissa_len(u) == u.len() || is_exponent(
        u.skip(mantissa_len(u)),
    ))
}

/// A token carries a percentage: it ends in `%` and what precedes the `%`
/// is a decimal numeral.
pub open spec fn token_is_pct(t: Seq<char>) -> bool {
    t.len() > 0 && t.last() == '%' && is_decimal(t.drop_last())
}

/// The body (the `%` stripped) of the first percentage token, if any.
pub open spec fn pct_of_tokens(ts: Seq<Seq<char>>) -> Option<Seq<char>>
    decreases ts.len(),
{
    if ts.len() == 0 {
        None
    } else if token_is_pct(ts[0]) {
        Some(ts[0].drop_last())
    } else {
        pct_of_tokens(ts.drop_first())
    }
}

/// The percentage read off a single line: present when the line mentions
/// `sync` in any ASCII case and one of its tokens is a percentage.
pub open spec fn line_pct(l: Seq<char>) -> Option<Seq<char>> {
    if contains_ci(l, "sync"@) {
        pct_of_tokens(tokens_of(l))
    } else {
        None
    }
}

/// The percentage of the most recent line that yields one.
pub open spec fn scanned_sync(lines: Seq<Seq<char>>) -> Option<Seq<char>>
    decreases lines.len(),
{
    if lines.len() == 0 {
        None
    } else if line_pct(lines.last()) is Some {
        line_pct(lines.last())
    } else {
        scanned_sync(lines.drop_last())
    }
}

/// Scans the mantissa of `s[u_start..b]`: returns where it ends and
/// whether it carries a digit.
fn scan_mantissa(s: &str, u_start: usize, b: usize) -> (res: (usize, bool))
    requires
        u_start <= b <= s@.len(),
        s@.len() <= usize::MAX,
    ensures
        ({
            let u = s@.subrange(u_start as int, b as int);
            u_start <= res.0 <= b && mantissa_len(u) == res.0 - u_start && res.1
                == mantissa_has_digits(u)
        }),
{
    let ghost u = s@.subrange(u_start as int, b as int);
    let mut k: usize = u_start;
    while k < b && is_digit(s.get_char(k))
        invariant
            u_start <= k <= b <= s@.len(),
            s@.len() <= usize::MAX,
            forall|j: int| u_start <= j < k ==> is_digit_char(s@[j]),
        decreases b - k,
    {
        k += 1;
    }
    proof {
        assert forall|j: int| 0 <= j < k - u_start implies is_digit_char(u[j]) by {
            assert(u[j] == s@[u_start + j]);
        }
        if k < b {
            assert(u[k - u_start] == s@[k as int]);
        }
        lemma_digit_prefix_at(u, k - u_start);
    }
    if k < b && s.get_char(k) == '.' {
        let mut m2: usize = k + 1;
        while m2 < b && is_digit(s.get_char(m2))
            invariant
                k < m2 <= b <= s@.len(),
                s@.len() <= usize::MAX,
                forall|j: int| k + 1 <= j < m2 ==> is_digit_char(s@[j]),
            decreases b - m2,
        {
            m2 += 1;
        }
        proof {
            let frac = u.skip(k - u_start + 1);
            assert(frac =~= s@.subrange(k + 1, b as int));
            assert forall|j: int| 0 <= j < m2 - k - 1 implies is_digit_char(frac[j]) by {
                assert(frac[j] == s@[k + 1 + j]);
            }
            if m2 < b {
                assert(frac[m2 - k - 1] == s@[m2 as int]);
            }
            lemma_digit_prefix_at(frac, m2 - k - 1);
        }
        (m2, k > u_start || m2 > k + 1)
    } else {
        (k, k > u_start)
    }
}

/// Whether `s[m_end..b]` is an exponent part.
fn scan_exponent(s: &str, m_end: usize, b: usize) -> (r: bool)
    requires
        m_end < b <= s@.len(),
        s@.len() <= usize::MAX,
    ensures
        r == is_exponent(s@.subrange(m_end as int, b as int)),
{
    let ghost rest = s@.subrange(m_end as int, b as int);
    proof {
        assert(rest[0] == s@[m_end as int]);
    }
    let e0 = s.get_char(m_end);
    if e0 != 'e' && e0 != 'E' {
        return false;
    }
    proof {
        assert(rest.skip(1) =~= s@.subrange(m_end + 1, b as int));
    }
    let mut d_start: usize = m_end + 1;
    if d_start < b {
        proof {
            assert(rest.skip(1)[0] == s@[m_end + 1]);
        }
        let c1 = s.get_char(d_start);
        if c1 == '+' || c1 == '-' {
            d_start += 1;
        }
    }
    let ghost dseq = s@.subrange(d_start as int, b as int);
    proof {
        assert(rest.skip(1 + sign_len(rest.skip(1))) =~= dseq);
    }
    if d_start == b {
        return false;
    }
    let mut q: usize = d_start;
    while q < b && is_digit(s.get_char(q))
        invariant
            d_start <= q <= b <= s@.len(),
            s@.len() <= usize::MAX,
            forall|j: int| d_start <= j < q ==> is_digit_char(s@[j]),
        decreases b - q,
    {
        q += 1;
    }
    if q == b {
        proof {
            assert forall|j: int| 0 <= j < dseq.len() implies is_digit_char(dseq[j]) by {
                assert(dseq[j] == s@[d_start + j]);
            }
        }
        true
    } else {
        proof {
            assert(dseq[q - d_start] == s@[q as int]);
        }
        false
    }
}

/// Whether `s[a..b]` is a decimal numeral.
fn is_decimal_range(s: &str, a: usize, b: usize) -> (r: bool)
    requires
        a <= b <= s@.len(),
        s@.len() <= usize::MAX,
    ensures
        r == is_decimal(s@.subrange(a as int, b as int)),
{
    let ghost t = s@.subrange(a as int, b as int);
    if a == b {
        return false;
    }
    let c0 = s.get_char(a);
    let u_start: usize = if c0 == '+' || c0 == '-' {
        a + 1
    } else {
        a
    };
    let ghost u = s@.subrange(u_start as int, b as int);
    proof {
        assert(t[0] == s@[a as int]);
        assert(t.skip(sign_len(t)) =~= u);
    }
    let (m_end, has_digits) = scan_mantissa(s, u_start, b);
    if !has_digits {
        return false;
    }
    if m_end == b {
        return true;
    }
    proof {
        assert(u.skip(mantissa_len(u)) =~= s@.subrange(m_end as int, b as int));
    }
    scan_exponent(s, m_end, b)
}

/// The body of the first percentage token of a line mentioning `sync`
/// (ASCII case-insensitive), the trailing `%` stripped.
fn line_sync_token(line: &str) -> (r: Option<String>)
    ensures
        match r {
            Some(s) => line_pct(line@) == Some(s@),
            None => line_pct(line@) is None,
        },
{
    if !contains_str_ci(line, "sync") {
        return None;
    }
    let n = line.unicode_len();
    let mut i: usize = 0;
    proof {
        assert(line@.skip(0) =~= line@);
    }
    while i < n
        invariant
            n == line@.len(),
            0 <= i <= n,
            contains_ci(line@, "sync"@),
            pct_of_tokens(tokens_of(line@)) == pct_of_tokens(tokens_of(line@.skip(i as int))),
        decreases n - i,
    {
        if is_space(line.get_char(i)) {
            proof {
                assert(line@.skip(i as int)[0] == line@[i as int]);
                assert(line@.skip(i as int).drop_first() =~= line@.skip(i + 1));
            }
            i += 1;
        } else {
            let mut j: usize = i + 1;
            while j < n && !is_space(line.get_char(j))
                invariant
                    n == line@.len(),
                    i < j <= n,
                    forall|x: int| i <= x < j ==> !is_space_char(line@[x]),
                decreases n - j,
            {
                j += 1;
            }
            let ghost t0 = line@.skip(i as int);
            let ghost t = line@.subrange(i as int, j as int);
            proof {
                assert forall|x: int| 0 <= x < j - i implies !is_space_char(t0[x]) by {
                    assert(t0[x] == line@[i + x]);
                }
                if j < n {
                    assert(t0[j - i] == line@[j as int]);
                }
                lemma_nonspace_prefix_at(t0, j - i);
                assert(t0.take(j - i) =~= t);
                assert(t0.skip(j - i) =~= line@.skip(j as int));
                assert(tokens_of(t0) == seq![t] + tokens_of(line@.skip(j as int)));
                assert((seq![t] + tokens_of(line@.skip(j as int)))[0] == t);
                assert((seq![t] + tokens_of(line@.skip(j as int))).drop_first() =~= tokens_of(
                    line@.skip(j as int),
                ));
                assert(t.last() == line@[j - 1]);
                assert(t.drop_last() =~= line@.subrange(i as int, j - 1));
            }
            let mut good = false;
            if line.get_char(j - 1) == '%' && j - 1 > i {
                good = is_decimal_range(line, i, j - 1);
            }
            if good {
                let v = line.substring_char(i, j - 1).to_owned();
                proof {
                    assert(token_is_pct(t));
                    assert(pct_of_tokens(tokens_of(t0)) == Some(t.drop_last()));
                }
                return Some(v);
            }
            proof {
                assert(!token_is_pct(t));
                assert(pct_of_tokens(tokens_of(t0)) == pct_of_tokens(
                    tokens_of(line@.skip(j as int)),
                ));
            }
            i = j;
        }
    }
    proof {
        assert(line@.skip(n as int) =~= Seq::<char>::empty());
    }
    None
}

/// Scans `lines` in reverse for the most recent line mentioning `sync`
/// whose tokens include a percentage, and returns that percentage's
/// decimal body (the trailing `%` stripped), or `None` when no line
/// yields one.
pub fn extract_sync_percentage(lines: &Vec<String>) -> (r: Option<String>)
    ensures
        match r {
            Some(tok) => scanned_sync(lines.deep_view()) == Some(tok@),
            None => scanned_sync(lines.deep_view()) is None,
        },
{
    let ghost dv = lines.deep_view();
    let mut k = lines.len();
    proof {
        assert(dv.take(lines@.len() as int) =~= dv);
    }
    while k > 0
        invariant
            dv == lines.deep_view(),
            dv.len() == lines@.len(),
            0 <= k <= lines@.len(),
            scanned_sync(dv) == scanned_sync(dv.take(k as int)),
        decreases k,
    {
        k -= 1;
        proof {
            assert(dv[k as int] == lines@[k as int]@);
            assert(dv.take(k + 1).drop_last() =~= dv.take(k as int));
            assert(dv.take(k + 1).last() == dv[k as int]);
        }
        match line_sync_token(lines[k].as_str()) {
            Some(v) => {
                return Some(v);
            },
            None => {},
        }
    }
    proof {
        assert(dv.take(0) =~= Seq::<Seq<char>>::empty());
    }
    None
}

/// The sync percentage of a log tail, or the literal `"100.0"` when no
/// line carries one: absence of sync information reads as fully synced.
/// Callers that must distinguish "unknown" from "fully synced" use
/// `extract_sync_percentage` instead.
pub fn sync_percentage_or_default(lines: &Vec<String>) -> (r: String)
    ensures
        match scanned_sync(lines.deep_view()) {
            Some(t) => r@ == t,
            None => r@ == "100.0"@,
        },
{
    match extract_sync_percentage(lines) {
        Some(v) => v,
        None => "100.0".to_owned(),
    }
}

/// Extraction has no hidden state: the result of a sync-percentage
/// extraction is a function of the supplied lines alone, so two
/// extractions over the same immutable input are identical.
pub proof fn lemma_sync_extraction_idempotent(
    lines: Seq<Seq<char>>,
    r1: Option<Seq<char>>,
    r2: Option<Seq<char>>,
)
    requires
        r1 == scanned_sync(lines),
        r2 == scanned_sync(lines),
    ensures
        r1 == r2,
{
}

} // verus!
