//! Character classes and decimal conversions used by the filename grammar,
//! the duration parser and the timecode renderer.

use vstd::prelude::*;

verus! {

/// ASCII decimal digit.
pub open spec fn is_digit_char(c: char) -> bool {
    '0' <= c && c <= '9'
}

/// ASCII letter, either case.
pub open spec fn is_letter_char(c: char) -> bool {
    ('a' <= c && c <= 'z') || ('A' <= c && c <= 'Z')
}

/// Numeric value of an ASCII digit.
pub open spec fn digit_val(c: char) -> int {
    c as u32 - '0' as u32
}

/// Every character of the sequence is an ASCII digit.
pub open spec fn all_digits(s: Seq<char>) -> bool {
    forall|i: int| 0 <= i < s.len() ==> is_digit_char(s[i])
}

/// Value of a digit string, most significant digit first.
pub open spec fn dec_value(s: Seq<char>) -> int
    decreases s.len(),
{
    if s.len() == 0 {
        0
    } else {
        dec_value(s.drop_last()) * 10 + digit_val(s.last())
    }
}

pub proof fn lemma_dec_value_nonneg(s: Seq<char>)
    requires
        all_digits(s),
    ensures
        dec_value(s) >= 0,
    decreases s.len(),
{
    if s.len() > 0 {
        assert(all_digits(s.drop_last()));
        lemma_dec_value_nonneg(s.drop_last());
    }
}

/// The decimal digit character for a value below ten.
pub open spec fn digit_char(d: int) -> char {
    if d == 0 {
        '0'
    } else if d == 1 {
        '1'
    } else if d == 2 {
        '2'
    } else if d == 3 {
        '3'
    } else if d == 4 {
        '4'
    } else if d == 5 {
        '5'
    } else if d == 6 {
        '6'
    } else if d == 7 {
        '7'
    } else if d == 8 {
        '8'
    } else {
        '9'
    }
}

/// Decimal rendering of a non-negative number, without leading zeroes
/// (except for zero itself).
pub open spec fn dec_digits(n: nat) -> Seq<char>
    decreases n,
{
    if n < 10 {
        seq![digit_char(n as int)]
    } else {
        dec_digits(n / 10).push(digit_char((n % 10) as int))
    }
}

pub proof fn lemma_dec_digits_len(n: nat)
    ensures
        dec_digits(n).len() >= 1,
        n >= 10 ==> dec_digits(n).len() >= 2,
    decreases n,
{
    if n >= 10 {
        lemma_dec_digits_len(n / 10);
    }
}

/// A single-digit string slice for a value below ten.
fn digit_str(d: u64) -> (r: &'static str)
    requires
        d < 10,
    ensures
        r@ =~= seq![digit_char(d as int)],
{
    proof {
        reveal_strlit("0");
        reveal_strlit("1");
        reveal_strlit("2");
        reveal_strlit("3");
        reveal_strlit("4");
        reveal_strlit("5");
        reveal_strlit("6");
        reveal_strlit("7");
        reveal_strlit("8");
        reveal_strlit("9");
    }
    if d == 0 {
        "0"
    } else if d == 1 {
        "1"
    } else if d == 2 {
        "2"
    } else if d == 3 {
        "3"
    } else if d == 4 {
        "4"
    } else if d == 5 {
        "5"
    } else if d == 6 {
        "6"
    } else if d == 7 {
        "7"
    } else if d == 8 {
        "8"
    } else {
        "9"
    }
}

/// Length of the longest prefix made of ASCII digits.
pub open spec fn digit_prefix_len(s: Seq<char>) -> int
    decreases s.len(),
{
    if s.len() == 0 || !is_digit_char(s[0]) {
        0
    } else {
        1 + digit_prefix_len(s.skip(1))
    }
}

pub proof fn lemma_digit_prefix_len_props(s: Seq<char>)
    ensures
        0 <= digit_prefix_len(s) <= s.len(),
        forall|i: int| 0 <= i < digit_prefix_len(s) ==> is_digit_char(s[i]),
        digit_prefix_len(s) < s.len() ==> !is_digit_char(s[digit_prefix_len(s)]),
    decreases s.len(),
{
    if s.len() > 0 && is_digit_char(s[0]) {
        lemma_digit_prefix_len_props(s.skip(1));
        assert forall|i: int| 0 <= i < digit_prefix_len(s) implies is_digit_char(s[i]) by {
            if i > 0 {
                assert(s[i] == s.skip(1)[i - 1]);
            }
        }
    }
}

/// The digit-prefix length is determined by a digit run followed by the end
/// or a non-digit.
pub proof fn lemma_digit_prefix_len_is(s: Seq<char>, n: int)
    requires
        0 <= n <= s.len(),
        forall|i: int| 0 <= i < n ==> is_digit_char(s[i]),
        n < s.len() ==> !is_digit_char(s[n]),
    ensures
        digit_prefix_len(s) == n,
    decreases s.len(),
{
    if s.len() == 0 || !is_digit_char(s[0]) {
    } else {
        assert(n >= 1);
        assert(forall|i: int| 0 <= i < n - 1 ==> is_digit_char(#[trigger] s.skip(1)[i]));
        assert(n - 1 < s.skip(1).len() ==> !is_digit_char(s.skip(1)[n - 1]));
        lemma_digit_prefix_len_is(s.skip(1), n - 1);
    }
}

/// Index of the last occurrence of `c`, or -1 when absent.
pub open spec fn last_index_of(s: Seq<char>, c: char) -> int
    decreases s.len(),
{
    if s.len() == 0 {
        -1
    } else if s.last() == c {
        s.len() - 1
    } else {
        last_index_of(s.drop_last(), c)
    }
}

pub proof fn lemma_last_index_of_props(s: Seq<char>, c: char)
    ensures
        -1 <= last_index_of(s, c) < s.len(),
        last_index_of(s, c) >= 0 ==> s[last_index_of(s, c)] == c,
        forall|k: int| last_index_of(s, c) < k < s.len() ==> s[k] != c,
    decreases s.len(),
{
    if s.len() > 0 && s.last() != c {
        lemma_last_index_of_props(s.drop_last(), c);
        assert forall|k: int| last_index_of(s, c) < k < s.len() implies s[k] != c by {
            if k < s.len() - 1 {
                assert(s[k] == s.drop_last()[k]);
            }
        }
    }
}

/// The last-occurrence index is determined by an occurrence followed only by
/// other characters.
pub proof fn lemma_last_index_of_is(s: Seq<char>, c: char, j: int)
    requires
        0 <= j < s.len(),
        s[j] == c,
        forall|k: int| j < k < s.len() ==> s[k] != c,
    ensures
        last_index_of(s, c) == j,
    decreases s.len(),
{
    if s.last() == c {
        assert(j == s.len() - 1);
    } else {
        assert(j < s.len() - 1);
        assert(forall|k: int| j < k < s.drop_last().len() ==> #[trigger] s.drop_last()[k] != c);
        lemma_last_index_of_is(s.drop_last(), c, j);
    }
}

/// The absence of `c` is the same as a last-occurrence index of -1.
pub proof fn lemma_last_index_of_absent(s: Seq<char>, c: char)
    requires
        forall|k: int| 0 <= k < s.len() ==> s[k] != c,
    ensures
        last_index_of(s, c) == -1,
    decreases s.len(),
{
    if s.len() > 0 {
        assert(forall|k: int| 0 <= k < s.drop_last().len() ==> #[trigger] s.drop_last()[k] != c);
        lemma_last_index_of_absent(s.drop_last(), c);
    }
}

/// Renders a number in decimal.
pub fn render_u64(n: u64) -> (r: String)
    ensures
        r@ == dec_digits(n as nat),
    decreases n,
{
    if n < 10 {
        String::from_str(digit_str(n))
    } else {
        let mut s = render_u64(n / 10);
        s.append(digit_str(n % 10));
        proof {
            assert(s@ =~= dec_digits(n as nat));
        }
        s
    }
}

/// Zero-pads a decimal rendering to at least two characters.
pub open spec fn zero_pad2(s: Seq<char>) -> Seq<char> {
    if s.len() >= 2 {
        s
    } else {
        seq!['0'] + s
    }
}

/// Renders a number in decimal, zero-padded to at least two digits.
pub fn render_u64_pad2(n: u64) -> (r: String)
    ensures
        r@ == zero_pad2(dec_digits(n as nat)),
{
    if n < 10 {
        let mut s = String::from_str("0");
        s.append(digit_str(n));
        proof {
            reveal_strlit("0");
            assert(s@ =~= zero_pad2(dec_digits(n as nat)));
        }
        s
    } else {
        let r = render_u64(n);
        proof {
            lemma_dec_digits_len(n as nat);
        }
        r
    }
}

/// Number of consecutive ASCII digits in `s` starting at `from`.
pub fn digit_run_len(s: &str, from: usize) -> (n: usize)
    requires
        from <= s@.len(),
    ensures
        n as int == digit_prefix_len(s@.skip(from as int)),
        from + n <= s@.len(),
{
    let len = s.unicode_len();
    let mut i = from;
    while i < len
        invariant
            from <= i <= len,
            len == s@.len(),
            forall|k: int| from <= k < i ==> is_digit_char(s@[k]),
        decreases len - i,
    {
        let c = s.get_char(i);
        if !(c >= '0' && c <= '9') {
            proof {
                let t = s@.skip(from as int);
                assert(forall|k: int| 0 <= k < i - from ==> is_digit_char(#[trigger] t[k]));
                assert(!is_digit_char(t[i - from]));
                lemma_digit_prefix_len_is(t, i - from);
            }
            return i - from;
        }
        i += 1;
    }
    proof {
        let t = s@.skip(from as int);
        assert(forall|k: int| 0 <= k < t.len() ==> is_digit_char(#[trigger] t[k]));
        lemma_digit_prefix_len_is(t, t.len() as int);
    }
    len - from
}

/// Index of the last occurrence of `c` in `s`, scanning from the end.
pub fn rfind_char(s: &str, c: char) -> (r: Option<usize>)
    ensures
        match r {
            Some(j) => j as int == last_index_of(s@, c) && j < s@.len(),
            None => last_index_of(s@, c) == -1,
        },
{
    let len = s.unicode_len();
    let mut i = len;
    while i > 0
        invariant
            i <= len,
            len == s@.len(),
            forall|k: int| i <= k < len ==> s@[k] != c,
        decreases i,
    {
        let ch = s.get_char(i - 1);
        if ch == c {
            proof {
                lemma_last_index_of_is(s@, c, i - 1);
            }
            return Some(i - 1);
        }
        i -= 1;
    }
    proof {
        lemma_last_index_of_absent(s@, c);
    }
    None
}

/// Whether `pat` occurs in `s` as a block starting at position `at`.
pub fn matches_at(s: &str, at: usize, pat: &str) -> (r: bool)
    requires
        at <= s@.len(),
    ensures
        r == (at + pat@.len() <= s@.len() && s@.subrange(
            at as int,
            at + pat@.len(),
        ) == pat@),
{
    let slen = s.unicode_len();
    let plen = pat.unicode_len();
    if plen > slen - at {
        return false;
    }
    let mut j: usize = 0;
    while j < plen
        invariant
            j <= plen,
            at + plen <= slen,
            slen == s@.len(),
            plen == pat@.len(),
            forall|k: int| 0 <= k < j ==> s@[at + k] == pat@[k],
        decreases plen - j,
    {
        let a = s.get_char(at + j);
        let b = pat.get_char(j);
        if a != b {
            proof {
                assert(s@.subrange(at as int, at + pat@.len())[j as int] != pat@[j as int]);
            }
            return false;
        }
        j += 1;
    }
    proof {
        assert(s@.subrange(at as int, at + pat@.len()) =~= pat@);
    }
    true
}

/// Whether `c` occurs in `s` at or after position `from`.
pub fn contains_char_from(s: &str, from: usize, c: char) -> (r: bool)
    requires
        from <= s@.len(),
    ensures
        r == s@.skip(from as int).contains(c),
{
    let len = s.unicode_len();
    let mut i = from;
    while i < len
        invariant
            from <= i <= len,
            len == s@.len(),
            forall|k: int| from <= k < i ==> s@[k] != c,
        decreases len - i,
    {
        let ch = s.get_char(i);
        if ch == c {
            proof {
                assert(s@.skip(from as int)[i - from] == c);
            }
            return true;
        }
        i += 1;
    }
    proof {
        let t = s@.skip(from as int);
        assert(forall|k: int| 0 <= k < t.len() ==> t[k] != c);
    }
    false
}

/// Sequence-index value of a digit string: its decimal value, or 0 when the
/// value does not fit the index field (mirroring a failed integer parse).
pub open spec fn index_of_digits(s: Seq<char>) -> int {
    if dec_value(s) <= i32::MAX {
        dec_value(s)
    } else {
        0
    }
}

/// Parses a run of ASCII digits into a sequence index.
pub fn parse_index_digits(s: &str) -> (r: i32)
    requires
        all_digits(s@),
    ensures
        r as int == index_of_digits(s@),
{
    let len = s.unicode_len();
    let mut acc: u32 = 0;
    let mut over = false;
    let mut i: usize = 0;
    while i < len
        invariant
            i <= len,
            len == s@.len(),
            all_digits(s@),
            !over ==> acc as int == dec_value(s@.take(i as int)) && acc <= i32::MAX as u32,
            over ==> dec_value(s@.take(i as int)) > i32::MAX,
        decreases len - i,
    {
        let c = s.get_char(i);
        proof {
            assert(is_digit_char(s@[i as int]));
            assert(s@.take(i + 1).drop_last() =~= s@.take(i as int));
            assert(s@.take(i + 1).last() == s@[i as int]);
        }
        let d = (c as u32) - 48;
        if over {
            proof {
                lemma_dec_value_nonneg(s@.take(i as int));
            }
        } else {
            if acc > 214748364 || (acc == 214748364 && d > 7) {
                over = true;
            } else {
                acc = acc * 10 + d;
            }
        }
        i += 1;
    }
    proof {
        assert(s@.take(len as int) =~= s@);
    }
    if over {
        0
    } else {
        acc as i32
    }
}

/// Meaning of a signed decimal integer literal, as `str::parse::<i64>`
/// accepts one: an optional single sign, one or more ASCII digits, and a
/// value within the i64 range.
pub open spec fn parse_i64_spec(s: Seq<char>) -> Option<int> {
    let mag = if s.len() > 0 && (s[0] == '+' || s[0] == '-') {
        s.skip(1)
    } else {
        s
    };
    if mag.len() > 0 && all_digits(mag) {
        let v: int = if s.len() > 0 && s[0] == '-' {
            -dec_value(mag)
        } else {
            dec_value(mag)
        };
        if i64::MIN <= v <= i64::MAX {
            Some(v)
        } else {
            None
        }
    } else {
        None
    }
}

/// Parses a signed decimal integer, rejecting malformed text and values out
/// of the i64 range.
#[verifier::loop_isolation(false)]
pub fn parse_i64(s: &str) -> (r: Option<i64>)
    ensures
        match r {
            Some(v) => parse_i64_spec(s@) == Some(v as int),
            None => parse_i64_spec(s@) is None,
        },
{
    let len = s.unicode_len();
    if len == 0 {
        return None;
    }
    let c0 = s.get_char(0);
    let neg = c0 == '-';
    let start: usize = if c0 == '-' || c0 == '+' {
        1
    } else {
        0
    };
    if start == len {
        return None;
    }
    let bound: u64 = if neg {
        9223372036854775808
    } else {
        9223372036854775807
    };
    let limit_div: u64 = bound / 10;
    let limit_mod: u64 = bound % 10;
    let ghost mag = s@.skip(start as int);
    proof {
        if start == 0 {
            assert(s@.skip(0) =~= s@);
        }
    }
    let mut acc: u64 = 0;
    let mut i = start;
    while i < len
        invariant
            start <= i <= len,
            len == s@.len(),
            start < len,
            mag == s@.skip(start as int),
            neg ==> bound == 9223372036854775808,
            !neg ==> bound == 9223372036854775807,
            limit_div == bound / 10,
            limit_mod == bound % 10,
            forall|k: int| 0 <= k < i - start ==> is_digit_char(#[trigger] mag[k]),
            acc as int == dec_value(mag.take(i - start)),
            acc <= bound,
        decreases len - i,
    {
        let c = s.get_char(i);
        if !(c >= '0' && c <= '9') {
            proof {
                assert(!is_digit_char(mag[i - start]));
                assert(!all_digits(mag));
            }
            return None;
        }
        proof {
            assert(mag.take(i - start + 1).drop_last() =~= mag.take(i - start));
            assert(mag.take(i - start + 1).last() == mag[i - start]);
        }
        let d = (c as u32 - 48) as u64;
        if acc > limit_div || (acc == limit_div && d > limit_mod) {
            proof {
                let done = mag.take(i - start + 1);
                assert(dec_value(done) == acc * 10 + d);
                assert(dec_value(done) > bound);
                if all_digits(mag) {
                    lemma_dec_value_grows(mag, i - start + 1);
                }
            }
            return None;
        }
        acc = acc * 10 + d;
        i += 1;
    }
    proof {
        assert(mag.take(len - start) =~= mag);
        assert(all_digits(mag));
        lemma_dec_value_nonneg(mag);
    }
    if neg {
        if acc == 9223372036854775808 {
            Some(i64::MIN)
        } else {
            Some(-(acc as i64))
        }
    } else {
        Some(acc as i64)
    }
}

/// The value of a digit string is at least the value of any of its prefixes.
pub proof fn lemma_dec_value_grows(s: Seq<char>, k: int)
    requires
        0 <= k <= s.len(),
        forall|i: int| 0 <= i < s.len() ==> is_digit_char(s[i]),
    ensures
        dec_value(s) >= dec_value(s.take(k)),
    decreases s.len() - k,
{
    if k < s.len() {
        lemma_dec_value_grows(s, k + 1);
        assert(s.take(k + 1).drop_last() =~= s.take(k));
        assert(is_digit_char(s.take(k + 1).last()));
        lemma_dec_value_nonneg(s.take(k));
    } else {
        assert(s.take(k) =~= s);
    }
}

} // verus!
