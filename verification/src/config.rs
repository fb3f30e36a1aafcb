//! Configuration resolution: an interval specification such as `"500ms"`,
//! `"2s"`, `"1m"` or `"1h"` resolves to a sleep duration, and a total-count
//! specification resolves to an iteration bound (`-1` meaning unbounded).
//! Malformed input never raises an error: it falls back to the defaults,
//! one second and an unbounded run.

use vstd::prelude::*;

verus! {

/// The time unit attached to a parsed interval value.
#[derive(Clone, Copy, Debug, PartialEq, Eq, Structural)]
pub enum Unit {
    Millis,
    Secs,
    Mins,
    Hours,
}

impl Unit {
    /// How many milliseconds one tick of this unit lasts.
    pub open spec fn millis_per(self) -> int {
        match self {
            Unit::Millis => 1,
            Unit::Secs => 1000,
            Unit::Mins => 60000,
            Unit::Hours => 3600000,
        }
    }
}

/// A resolved emission interval: a value together with its unit.
#[derive(Clone, Copy, Debug, PartialEq, Eq, Structural)]
pub struct Interval {
    pub value: u64,
    pub unit: Unit,
}

impl Interval {
    /// The whole interval, in milliseconds.
    pub open spec fn millis(self) -> int {
        self.value * self.unit.millis_per()
    }

    /// Executable milliseconds count; wide enough that no value overflows.
    pub fn total_millis(&self) -> (r: u128)
        ensures
            r == self.millis(),
    {
        let factor: u128 = match self.unit {
            Unit::Millis => 1,
            Unit::Secs => 1000,
            Unit::Mins => 60000,
            Unit::Hours => 3600000,
        };
        proof {
            assert((self.value as int) * (factor as int) <= u64::MAX as int * 3600000)
                by (nonlinear_arith)
                requires
                    self.value as int <= u64::MAX as int,
                    0 <= factor as int <= 3600000,
                    0 <= self.value as int,
            ;
        }
        (self.value as u128) * factor
    }
}

/// The fallback interval: one second, used whenever the input is absent,
/// malformed, or carries no recognized unit.
pub open spec fn default_interval() -> Interval {
    Interval { value: 1, unit: Unit::Secs }
}

/// The characters that trimming removes: the Unicode white-space set.
pub open spec fn is_space(c: char) -> bool {
    ||| c == '\t'
    ||| c == '\n'
    ||| c == '\u{b}'
    ||| c == '\u{c}'
    ||| c == '\r'
    ||| c == ' '
    ||| c == '\u{85}'
    ||| c == '\u{a0}'
    ||| c == '\u{1680}'
    ||| c == '\u{2000}'
    ||| c == '\u{2001}'
    ||| c == '\u{2002}'
    ||| c == '\u{2003}'
    ||| c == '\u{2004}'
    ||| c == '\u{2005}'
    ||| c == '\u{2006}'
    ||| c == '\u{2007}'
    ||| c == '\u{2008}'
    ||| c == '\u{2009}'
    ||| c == '\u{200a}'
    ||| c == '\u{2028}'
    ||| c == '\u{2029}'
    ||| c == '\u{202f}'
    ||| c == '\u{205f}'
    ||| c == '\u{3000}'
}

/// An ASCII decimal digit.
pub open spec fn is_digit(c: char) -> bool {
    48 <= c as u32 <= 57
}

/// The numeric value of one decimal digit.
pub open spec fn digit_val(c: char) -> int {
    c as u32 - 48
}

/// Every character of `s` is a decimal digit.
pub open spec fn all_digits(s: Seq<char>) -> bool {
    forall|i: int| 0 <= i < s.len() ==> is_digit(s[i])
}

/// The value of a digit string read most-significant digit first.
pub open spec fn digits_val(s: Seq<char>) -> int
    decreases s.len(),
{
    if s.len() == 0 {
        0
    } else {
        digits_val(s.drop_last()) * 10 + digit_val(s.last())
    }
}

/// ASCII case folding of one character; anything but `A`..`Z` stays as it is.
pub open spec fn lower_char(c: char) -> char {
    if 65 <= c as u32 <= 90 {
        (c as u32 + 32) as char
    } else {
        c
    }
}

/// ASCII case folding of a whole character sequence.
pub open spec fn lower_seq(s: Seq<char>) -> Seq<char> {
    Seq::new(s.len(), |i: int| lower_char(s[i]))
}

/// `s` with leading and trailing white space removed.
pub open spec fn trim_of(s: Seq<char>) -> Seq<char>
    decreases s.len(),
{
    if s.len() == 0 {
        s
    } else if is_space(s[0]) {
        trim_of(s.subrange(1, s.len() as int))
    } else if is_space(s[s.len() - 1]) {
        trim_of(s.subrange(0, s.len() - 1))
    } else {
        s
    }
}

/// A digit string's value is never negative.
proof fn lemma_digits_val_nonneg(s: Seq<char>)
    requires
        all_digits(s),
    ensures
        digits_val(s) >= 0,
    decreases s.len(),
{
    if s.len() > 0 {
        assert(all_digits(s.drop_last())) by {
            assert forall|i: int| 0 <= i < s.drop_last().len() implies is_digit(
                s.drop_last()[i],
            ) by {
                assert(s.drop_last()[i] == s[i]);
            }
        }
        lemma_digits_val_nonneg(s.drop_last());
    }
}

/// Reading more digits never lowers the value: the value of a prefix is a
/// lower bound on the value of the whole digit string.
proof fn lemma_digits_val_mono(s: Seq<char>, i: int)
    requires
        all_digits(s),
        0 <= i <= s.len(),
    ensures
        digits_val(s.subrange(0, i)) <= digits_val(s),
    decreases s.len() - i,
{
    if i == s.len() {
        assert(s.subrange(0, i) =~= s);
    } else {
        let a = s.subrange(0, i);
        let b = s.subrange(0, i + 1);
        assert(b.drop_last() =~= a);
        assert(b.last() == s[i]);
        assert(all_digits(a)) by {
            assert forall|j: int| 0 <= j < a.len() implies is_digit(a[j]) by {
                assert(a[j] == s[j]);
            }
        }
        lemma_digits_val_nonneg(a);
        assert(digits_val(a) <= digits_val(b));
        lemma_digits_val_mono(s, i + 1);
    }
}

/// Trimming removes exactly the white-space margins: if everything before
/// `lo` and everything from `hi` on is white space, and the characters at
/// the two ends of `[lo, hi)` are not, the trimmed string is that window.
pub proof fn lemma_trim_of(s: Seq<char>, lo: int, hi: int)
    requires
        0 <= lo <= hi <= s.len(),
        forall|j: int| 0 <= j < lo ==> is_space(s[j]),
        forall|j: int| hi <= j < s.len() ==> is_space(s[j]),
        lo < hi ==> !is_space(s[lo]) && !is_space(s[hi - 1]),
    ensures
        trim_of(s) == s.subrange(lo, hi),
    decreases s.len(),
{
    if s.len() == 0 {
        assert(s.subrange(lo, hi) =~= s);
    } else if is_space(s[0]) {
        let t = s.subrange(1, s.len() as int);
        if lo == hi {
            assert forall|j: int| 0 <= j < t.len() implies is_space(t[j]) by {
                assert(t[j] == s[j + 1]);
            }
            lemma_trim_of(t, 0, 0);
            assert(s.subrange(lo, hi) =~= t.subrange(0, 0));
        } else {
            assert(lo >= 1);
            assert forall|j: int| 0 <= j < lo - 1 implies is_space(t[j]) by {
                assert(t[j] == s[j + 1]);
            }
            assert forall|j: int| hi - 1 <= j < t.len() implies is_space(t[j]) by {
                assert(t[j] == s[j + 1]);
            }
            assert(t[lo - 1] == s[lo]);
            assert(t[hi - 2] == s[hi - 1]);
            lemma_trim_of(t, lo - 1, hi - 1);
            assert(s.subrange(lo, hi) =~= t.subrange(lo - 1, hi - 1));
        }
    } else if is_space(s[s.len() - 1]) {
        assert(lo < hi) by {
            if lo == hi {
                assert(is_space(s[0]));
            }
        }
        assert(lo == 0);
        assert(hi < s.len());
        let t = s.subrange(0, s.len() - 1);
        assert forall|j: int| hi <= j < t.len() implies is_space(t[j]) by {
            assert(t[j] == s[j]);
        }
        assert(t[lo] == s[lo]);
        assert(t[hi - 1] == s[hi - 1]);
        lemma_trim_of(t, lo, hi);
        assert(s.subrange(lo, hi) =~= t.subrange(lo, hi));
    } else {
        assert(lo < hi) by {
            if lo == hi {
                assert(is_space(s[0]));
            }
        }
        assert(lo == 0);
        assert(hi == s.len());
        assert(s.subrange(lo, hi) =~= s);
    }
}

/// What `u64` parsing accepts: an optional `+` sign, then at least one
/// decimal digit, with a value that fits in a `u64`.
pub open spec fn u64_digits(s: Seq<char>) -> Option<int> {
    let body = if s.len() >= 1 && s[0] == '+' {
        s.subrange(1, s.len() as int)
    } else {
        s
    };
    if body.len() >= 1 && all_digits(body) && digits_val(body) <= u64::MAX {
        Some(digits_val(body))
    } else {
        None
    }
}

/// What `i64` parsing accepts: an optional `+` or `-` sign, then at least
/// one decimal digit, with a value that fits in an `i64`.
pub open spec fn i64_digits(s: Seq<char>) -> Option<int> {
    let neg = s.len() >= 1 && s[0] == '-';
    let signed = s.len() >= 1 && (s[0] == '-' || s[0] == '+');
    let body = if signed {
        s.subrange(1, s.len() as int)
    } else {
        s
    };
    if body.len() >= 1 && all_digits(body) {
        let m = if neg {
            -digits_val(body)
        } else {
            digits_val(body)
        };
        if i64::MIN <= m <= i64::MAX {
            Some(m)
        } else {
            None
        }
    } else {
        None
    }
}

/// The interval that a stripped unit suffix resolves to: the remaining text
/// is trimmed again and read as a `u64`; on failure the default interval.
pub open spec fn num_or_default(body: Seq<char>, u: Unit) -> Interval {
    match u64_digits(trim_of(body)) {
        Some(v) => Interval { value: v as u64, unit: u },
        None => default_interval(),
    }
}

/// The interval an input string resolves to: trim, fold case, recognize a
/// `ms`, `s`, `m` or `h` suffix, and read the rest as a number; anything
/// else resolves to the default of one second.
pub open spec fn interval_of(s0: Seq<char>) -> Interval {
    let t = lower_seq(trim_of(s0));
    let n = t.len() as int;
    if n >= 2 && t[n - 2] == 'm' && t[n - 1] == 's' {
        num_or_default(t.subrange(0, n - 2), Unit::Millis)
    } else if n >= 1 && t[n - 1] == 's' {
        num_or_default(t.subrange(0, n - 1), Unit::Secs)
    } else if n >= 1 && t[n - 1] == 'm' {
        num_or_default(t.subrange(0, n - 1), Unit::Mins)
    } else if n >= 1 && t[n - 1] == 'h' {
        num_or_default(t.subrange(0, n - 1), Unit::Hours)
    } else {
        default_interval()
    }
}

/// The iteration bound an input string resolves to: trim and read as an
/// `i64`; on failure `-1`, the marker for an unbounded run.
pub open spec fn total_of(s0: Seq<char>) -> int {
    match i64_digits(trim_of(s0)) {
        Some(v) => v,
        None => -1,
    }
}

/// Executable white-space test, equal to the spec-level one.
fn is_space_char(c: char) -> (b: bool)
    ensures
        b == is_space(c),
{
    c == '\t' || c == '\n' || c == '\u{b}' || c == '\u{c}' || c == '\r' || c == ' ' || c
        == '\u{85}' || c == '\u{a0}' || c == '\u{1680}' || c == '\u{2000}' || c == '\u{2001}' || c
        == '\u{2002}' || c == '\u{2003}' || c == '\u{2004}' || c == '\u{2005}' || c == '\u{2006}'
        || c == '\u{2007}' || c == '\u{2008}' || c == '\u{2009}' || c == '\u{200a}' || c
        == '\u{2028}' || c == '\u{2029}' || c == '\u{202f}' || c == '\u{205f}' || c == '\u{3000}'
}

/// Executable ASCII case folding, equal to the spec-level one.
fn lower_char_exec(c: char) -> (r: char)
    ensures
        r == lower_char(c),
{
    let u = c as u32;
    if 65 <= u && u <= 90 {
        ((u + 32) as u8) as char
    } else {
        c
    }
}

/// The characters of a string slice, as a vector.
fn chars_of(s: &str) -> (v: Vec<char>)
    ensures
        v@ == s@,
{
    let n = s.unicode_len();
    let mut v: Vec<char> = Vec::new();
    let mut i: usize = 0;
    while i < n
        invariant
            i <= n,
            n == s@.len(),
            v@ == s@.subrange(0, i as int),
        decreases n - i,
    {
        v.push(s.get_char(i));
        proof {
            assert(v@ =~= s@.subrange(0, i + 1 as int));
        }
        i = i + 1;
    }
    proof {
        assert(v@ =~= s@);
    }
    v
}

/// The window that trimming `v[..end]` leaves: its bounds within `v`.
fn trim_bounds(v: &Vec<char>, end: usize) -> (r: (usize, usize))
    requires
        end <= v@.len(),
    ensures
        ({
            let (lo, hi) = r;
            lo <= hi <= end && trim_of(v@.subrange(0, end as int)) == v@.subrange(
                lo as int,
                hi as int,
            )
        }),
{
    let ghost s = v@.subrange(0, end as int);
    let mut lo: usize = 0;
    while lo < end && is_space_char(v[lo])
        invariant
            lo <= end <= v@.len(),
            forall|j: int| 0 <= j < lo ==> is_space(v@[j]),
        decreases end - lo,
    {
        lo = lo + 1;
    }
    let mut hi: usize = end;
    while hi > lo && is_space_char(v[hi - 1])
        invariant
            lo <= hi <= end <= v@.len(),
            forall|j: int| hi <= j < end ==> is_space(v@[j]),
        decreases hi,
    {
        hi = hi - 1;
    }
    proof {
        assert forall|j: int| 0 <= j < lo implies is_space(s[j]) by {
            assert(s[j] == v@[j]);
        }
        assert forall|j: int| hi <= j < s.len() implies is_space(s[j]) by {
            assert(s[j] == v@[j]);
        }
        if lo < hi {
            assert(s[lo as int] == v@[lo as int]);
            assert(s[hi - 1] == v@[hi - 1]);
        }
        lemma_trim_of(s, lo as int, hi as int);
        assert(v@.subrange(lo as int, hi as int) =~= s.subrange(lo as int, hi as int));
    }
    (lo, hi)
}

/// Digit-string scan over `v[lo..hi]`: the parsed value if every character
/// is a digit, the window is not empty, and the value stays within `limit`.
fn scan_digits(v: &Vec<char>, lo: usize, hi: usize, limit: u64) -> (r: Option<u64>)
    requires
        lo <= hi <= v@.len(),
    ensures
        ({
            let s = v@.subrange(lo as int, hi as int);
            match r {
                Some(x) => s.len() >= 1 && all_digits(s) && x as int == digits_val(s) && x <= limit,
                None => !(s.len() >= 1 && all_digits(s) && digits_val(s) <= limit),
            }
        }),
{
    let ghost s = v@.subrange(lo as int, hi as int);
    if lo == hi {
        return None;
    }
    let mut acc: u64 = 0;
    let mut i: usize = lo;
    while i < hi
        invariant
            lo <= i <= hi <= v@.len(),
            s == v@.subrange(lo as int, hi as int),
            acc <= limit,
            all_digits(s.subrange(0, i as int - lo as int)),
            acc as int == digits_val(s.subrange(0, i as int - lo as int)),
        decreases hi - i,
    {
        let c = v[i];
        let cu = c as u32;
        proof {
            assert(s[i as int - lo as int] == v@[i as int]);
        }
        if cu < 48 || cu > 57 {
            proof {
                assert(!is_digit(s[i as int - lo as int]));
            }
            return None;
        }
        let d: u64 = (cu - 48) as u64;
        let ghost p = s.subrange(0, i as int - lo as int);
        let ghost q = s.subrange(0, i as int - lo as int + 1);
        proof {
            assert(q.drop_last() =~= p);
            assert(q.last() == s[i as int - lo as int]);
            assert forall|j: int| 0 <= j < q.len() implies is_digit(q[j]) by {
                assert(q[j] == s[j]);
            }
        }
        let next: u128 = (acc as u128) * 10 + (d as u128);
        proof {
            assert(next as int == digits_val(q));
        }
        if next > limit as u128 {
            proof {
                if all_digits(s) && digits_val(s) <= limit {
                    lemma_digits_val_mono(s, i as int - lo as int + 1);
                }
            }
            return None;
        }
        acc = next as u64;
        i = i + 1;
    }
    proof {
        assert(s.subrange(0, hi as int - lo as int) =~= s);
    }
    Some(acc)
}

/// `u64` parse of `v[lo..hi]`, with the optional `+` sign.
fn parse_u64_range(v: &Vec<char>, lo: usize, hi: usize) -> (r: Option<u64>)
    requires
        lo <= hi <= v@.len(),
    ensures
        ({
            let s = v@.subrange(lo as int, hi as int);
            match r {
                Some(x) => u64_digits(s) == Some(x as int),
                None => u64_digits(s) is None,
            }
        }),
{
    let ghost s = v@.subrange(lo as int, hi as int);
    let start: usize = if lo < hi && v[lo] == '+' {
        lo + 1
    } else {
        lo
    };
    proof {
        if lo < hi && s[0] == '+' {
            assert(v@.subrange(start as int, hi as int) =~= s.subrange(1, s.len() as int));
        } else {
            assert(v@.subrange(start as int, hi as int) =~= s);
        }
    }
    scan_digits(v, start, hi, u64::MAX)
}

/// `i64` parse of `v[lo..hi]`, with the optional `+` or `-` sign.
fn parse_i64_range(v: &Vec<char>, lo: usize, hi: usize) -> (r: Option<i64>)
    requires
        lo <= hi <= v@.len(),
    ensures
        ({
            let s = v@.subrange(lo as int, hi as int);
            match r {
                Some(x) => i64_digits(s) == Some(x as int),
                None => i64_digits(s) is None,
            }
        }),
{
    let ghost s = v@.subrange(lo as int, hi as int);
    let neg: bool = lo < hi && v[lo] == '-';
    let signed: bool = lo < hi && (v[lo] == '-' || v[lo] == '+');
    let start: usize = if signed {
        lo + 1
    } else {
        lo
    };
    proof {
        if signed {
            assert(v@.subrange(start as int, hi as int) =~= s.subrange(1, s.len() as int));
        } else {
            assert(v@.subrange(start as int, hi as int) =~= s);
        }
    }
    let limit: u64 = if neg {
        0x8000_0000_0000_0000
    } else {
        0x7fff_ffff_ffff_ffff
    };
    let ghost body = v@.subrange(start as int, hi as int);
    match scan_digits(v, start, hi, limit) {
        Some(m) => {
            proof {
                lemma_digits_val_nonneg(body);
            }
            if neg {
                if m == 0x8000_0000_0000_0000 {
                    Some(i64::MIN)
                } else {
                    Some(-(m as i64))
                }
            } else {
                Some(m as i64)
            }
        },
        None => {
            proof {
                if body.len() >= 1 && all_digits(body) {
                    lemma_digits_val_nonneg(body);
                }
            }
            None
        },
    }
}

/// Resolve the interval specification. An absent, empty or malformed value,
/// or one with no recognized unit suffix, resolves to one second; a value
/// of the shape `<integer><ms|s|m|h>`, case-insensitive and with white
/// space tolerated around both parts, resolves to that many of that unit.
pub fn parse_interval(input: Option<&str>) -> (r: Interval)
    ensures
        input is None ==> r == default_interval(),
        input matches Some(s) ==> r == interval_of(s@),
{
    let s: &str = match input {
        None => {
            return Interval { value: 1, unit: Unit::Secs };
        },
        Some(s) => s,
    };
    let chars = chars_of(s);
    let (lo, hi) = trim_bounds(&chars, chars.len());
    proof {
        assert(chars@.subrange(0, chars@.len() as int) =~= chars@);
    }
    let ghost trimmed = trim_of(s@);
    let mut t: Vec<char> = Vec::new();
    let mut k: usize = lo;
    while k < hi
        invariant
            lo <= k <= hi <= chars@.len(),
            chars@ == s@,
            trimmed == chars@.subrange(lo as int, hi as int),
            trimmed == trim_of(s@),
            t@ == lower_seq(trimmed).subrange(0, k as int - lo as int),
        decreases hi - k,
    {
        let c = lower_char_exec(chars[k]);
        t.push(c);
        proof {
            assert(trimmed[k as int - lo as int] == chars@[k as int]);
            assert(t@ =~= lower_seq(trimmed).subrange(0, k as int - lo as int + 1));
        }
        k = k + 1;
    }
    proof {
        assert(t@ =~= lower_seq(trimmed));
    }
    let n = t.len();
    let unit: Unit;
    let cut: usize;
    if n >= 2 && t[n - 2] == 'm' && t[n - 1] == 's' {
        unit = Unit::Millis;
        cut = n - 2;
    } else if n >= 1 && t[n - 1] == 's' {
        unit = Unit::Secs;
        cut = n - 1;
    } else if n >= 1 && t[n - 1] == 'm' {
        unit = Unit::Mins;
        cut = n - 1;
    } else if n >= 1 && t[n - 1] == 'h' {
        unit = Unit::Hours;
        cut = n - 1;
    } else {
        return Interval { value: 1, unit: Unit::Secs };
    }
    let (l2, h2) = trim_bounds(&t, cut);
    match parse_u64_range(&t, l2, h2) {
        Some(x) => Interval { value: x, unit },
        None => Interval { value: 1, unit: Unit::Secs },
    }
}

/// The lower-case suffix text that selects each unit.
pub open spec fn suffix_of(u: Unit) -> Seq<char> {
    match u {
        Unit::Millis => seq!['m', 's'],
        Unit::Secs => seq!['s'],
        Unit::Mins => seq!['m'],
        Unit::Hours => seq!['h'],
    }
}

/// A white-space character is no sign, digit or unit letter, and case
/// folding leaves it alone.
proof fn lemma_space_char_facts(c: char)
    requires
        is_space(c),
    ensures
        lower_char(c) == c,
        c != 'm' && c != 's' && c != 'h' && c != '+',
        !is_digit(c),
{
}

/// A digit is no white space, sign or unit letter, and case folding leaves
/// it alone.
proof fn lemma_digit_char_facts(c: char)
    requires
        is_digit(c),
    ensures
        lower_char(c) == c,
        c != 'm' && c != 's' && c != 'h' && c != '+',
        !is_space(c),
{
}

/// Law: every well-formed interval string resolves to its integer converted
/// to the matching unit. The string may carry white space on either side of
/// the number-and-suffix core, and the suffix may be written in any case:
/// whenever its case folding spells the unit's suffix, the resolved interval
/// is exactly the parsed integer of that unit.
pub proof fn lemma_interval_resolves(
    s: Seq<char>,
    ws1: Seq<char>,
    num: Seq<char>,
    suf: Seq<char>,
    ws2: Seq<char>,
    unit: Unit,
)
    requires
        s == ws1 + num + suf + ws2,
        forall|j: int| 0 <= j < ws1.len() ==> is_space(ws1[j]),
        forall|j: int| 0 <= j < ws2.len() ==> is_space(ws2[j]),
        num.len() >= 1,
        all_digits(num),
        digits_val(num) <= u64::MAX,
        lower_seq(suf) == suffix_of(unit),
    ensures
        interval_of(s) == (Interval { value: digits_val(num) as u64, unit }),
        interval_of(s).millis() == digits_val(num) * unit.millis_per(),
{
    let lo = ws1.len() as int;
    let mid = num.len() as int;
    let sl = suf.len() as int;
    let hi = lo + mid + sl;
    assert(sl == suffix_of(unit).len()) by {
        assert(lower_seq(suf).len() == suf.len());
    }
    assert(sl >= 1);
    assert(s.len() == hi + ws2.len());
    assert forall|j: int| 0 <= j < lo implies is_space(s[j]) by {
        assert(s[j] == ws1[j]);
    }
    assert forall|j: int| 0 <= j < mid implies s[lo + j] == num[j] by {}
    assert forall|j: int| 0 <= j < sl implies s[lo + mid + j] == suf[j] by {}
    assert forall|j: int| hi <= j < s.len() implies is_space(s[j]) by {
        assert(s[j] == ws2[j - hi]);
    }
    assert forall|j: int| 0 <= j < sl implies lower_char(suf[j]) == suffix_of(unit)[j] by {
        assert(lower_seq(suf)[j] == lower_char(suf[j]));
    }
    // The window's two end characters are not white space.
    assert(s[lo] == num[0]);
    lemma_digit_char_facts(num[0]);
    assert(s[hi - 1] == suf[sl - 1]);
    assert(!is_space(suf[sl - 1])) by {
        if is_space(suf[sl - 1]) {
            lemma_space_char_facts(suf[sl - 1]);
            assert(lower_char(suf[sl - 1]) == suffix_of(unit)[sl - 1]);
        }
    }
    lemma_trim_of(s, lo, hi);
    let core = num + suf;
    assert(trim_of(s) =~= core);
    // Case folding keeps the digits and spells out the suffix.
    let t = lower_seq(trim_of(s));
    assert(t =~= num + suffix_of(unit)) by {
        assert forall|j: int| 0 <= j < core.len() implies lower_char(core[j]) == (num
            + suffix_of(unit))[j] by {
            if j < mid {
                assert(core[j] == num[j]);
                lemma_digit_char_facts(num[j]);
            } else {
                assert(core[j] == suf[j - mid]);
            }
        }
    }
    let n = t.len() as int;
    assert(n == mid + sl);
    assert forall|j: int| 0 <= j < mid implies t[j] == num[j] by {}
    // The branch of the matching unit is the one taken.
    let num_end: int = match unit {
        Unit::Millis => n - 2,
        _ => n - 1,
    };
    assert(t.subrange(0, num_end) =~= num);
    if mid >= 1 {
        lemma_digit_char_facts(num[mid - 1]);
    }
    match unit {
        Unit::Millis => {
            assert(t[n - 2] == 'm' && t[n - 1] == 's');
        },
        Unit::Secs => {
            assert(t[n - 1] == 's');
            assert(t[n - 2] == num[mid - 1]);
            assert(t[n - 2] != 'm');
        },
        Unit::Mins => {
            assert(t[n - 1] == 'm');
        },
        Unit::Hours => {
            assert(t[n - 1] == 'h');
        },
    }
    // The remaining text is the bare number: it trims to itself and parses.
    assert forall|j: int| 0 <= j < num.len() implies !is_space(num[j]) by {
        lemma_digit_char_facts(num[j]);
    }
    lemma_trim_of(num, 0, num.len() as int);
    assert(trim_of(num) =~= num);
    lemma_digit_char_facts(num[0]);
    assert(num[0] != '+');
    assert(u64_digits(num) == Some(digits_val(num)));
    lemma_digits_val_nonneg(num);
    assert(interval_of(s) == (Interval { value: digits_val(num) as u64, unit }));
}

/// Law: an input whose trimmed, case-folded text is empty or does not end
/// in a recognized unit letter resolves to the default of one second.
pub proof fn lemma_interval_default_no_suffix(s: Seq<char>)
    requires
        ({
            let t = lower_seq(trim_of(s));
            t.len() == 0 || (t[t.len() - 1] != 's' && t[t.len() - 1] != 'm' && t[t.len() - 1]
                != 'h')
        }),
    ensures
        interval_of(s) == default_interval(),
        interval_of(s).millis() == 1000,
{
}

/// Law: an input that trims to digits alone, such as a bare count, carries
/// no unit and resolves to the default of one second.
pub proof fn lemma_interval_default_unitless(s: Seq<char>)
    requires
        all_digits(trim_of(s)),
    ensures
        interval_of(s) == default_interval(),
        interval_of(s).millis() == 1000,
{
    let t = lower_seq(trim_of(s));
    let n = t.len() as int;
    if n >= 1 {
        lemma_digit_char_facts(trim_of(s)[n - 1]);
        assert(t[n - 1] == trim_of(s)[n - 1]);
        lemma_interval_default_no_suffix(s);
    } else {
        lemma_interval_default_no_suffix(s);
    }
}

/// Law: a recognized unit whose remaining text does not read as a plain
/// integer resolves to the default of one second; a bad number never turns
/// into a made-up interval.
pub proof fn lemma_interval_default_bad_number(s: Seq<char>, unit: Unit, num_end: int)
    requires
        ({
            let t = lower_seq(trim_of(s));
            let n = t.len() as int;
            &&& 0 <= num_end <= n
            &&& match unit {
                Unit::Millis => n >= 2 && t[n - 2] == 'm' && t[n - 1] == 's' && num_end == n - 2,
                Unit::Secs => n >= 1 && t[n - 1] == 's' && num_end == n - 1 && !(n >= 2 && t[n - 2]
                    == 'm'),
                Unit::Mins => n >= 1 && t[n - 1] == 'm' && num_end == n - 1 && t[n - 1] != 's',
                Unit::Hours => n >= 1 && t[n - 1] == 'h' && num_end == n - 1,
            }
            &&& u64_digits(trim_of(t.subrange(0, num_end))) is None
        }),
    ensures
        interval_of(s) == default_interval(),
        interval_of(s).millis() == 1000,
{
}

/// Resolve the total-count specification. An absent or malformed value
/// resolves to `-1`, the marker for an unbounded run; otherwise the value
/// is the signed integer the string holds, white space tolerated.
pub fn parse_total(input: Option<&str>) -> (r: i64)
    ensures
        input is None ==> r == -1,
        input matches Some(s) ==> r == total_of(s@),
{
    let s: &str = match input {
        None => {
            return -1;
        },
        Some(s) => s,
    };
    let chars = chars_of(s);
    let (lo, hi) = trim_bounds(&chars, chars.len());
    proof {
        assert(chars@.subrange(0, chars@.len() as int) =~= chars@);
    }
    match parse_i64_range(&chars, lo, hi) {
        Some(x) => x,
        None => -1,
    }
}

} // verus!
