//! Durations written as a run of segments, each a number followed by a unit:
//! `h`, `m`, `s` or `ms` (for example `"1h30m45s"`, `"2h500ms"` or `"1.5h"`).
//! A number is whole digits, optionally followed by `.` and fraction digits;
//! a fraction is converted with integer arithmetic and truncated to whole
//! nanoseconds. The segments add up; the total is kept in nanoseconds.

use vstd::prelude::*;

use crate::number::{
    IntErrorKind, all_digits, digit_value, digits_value, is_digit, lemma_fold_value, parse_int_parts,
    spec_parse_int,
};
use crate::text::{chars_of, debug_text, str_debug, string_of_range};

verus! {

/// The largest total, in nanoseconds, that a `Duration` holds: `u64::MAX`
/// seconds and 999 999 999 nanoseconds.
pub open spec fn max_total_ns() -> int {
    (u64::MAX as int) * 1_000_000_000 + 999_999_999
}

pub open spec fn is_ascii_alpha(c: char) -> bool {
    ('a' <= c <= 'z') || ('A' <= c <= 'Z')
}

/// The number of ASCII digits at the start of `s[i..]`.
pub open spec fn digit_run(s: Seq<char>, i: int) -> nat
    decreases s.len() - i,
{
    if 0 <= i < s.len() && is_digit(s[i]) {
        1 + digit_run(s, i + 1)
    } else {
        0
    }
}

/// The number of ASCII letters at the start of `s[i..]`.
pub open spec fn alpha_run(s: Seq<char>, i: int) -> nat
    decreases s.len() - i,
{
    if 0 <= i < s.len() && is_ascii_alpha(s[i]) {
        1 + alpha_run(s, i + 1)
    } else {
        0
    }
}

/// The number of fraction digits after the whole digits that end at `j`:
/// those after a `.` at `j`, or none when no digit follows a `.` there.
pub open spec fn fraction_run(s: Seq<char>, j: int) -> nat {
    if 0 <= j < s.len() && s[j] == '.' && digit_run(s, j + 1) > 0 {
        digit_run(s, j + 1)
    } else {
        0
    }
}

/// The length of the number at `i`: its whole digits, and its `.` and
/// fraction digits when it has a fraction.
pub open spec fn number_len(s: Seq<char>, i: int) -> nat {
    let n = digit_run(s, i);
    let f = fraction_run(s, i + n);
    if f > 0 {
        n + 1 + f
    } else {
        n
    }
}

/// How many nanoseconds one of `unit` is, for the units that exist.
pub open spec fn unit_ns(unit: Seq<char>) -> Option<int> {
    if unit == seq!['h'] {
        Some(3_600_000_000_000)
    } else if unit == seq!['m'] {
        Some(60_000_000_000)
    } else if unit == seq!['s'] {
        Some(1_000_000_000)
    } else if unit == seq!['m', 's'] {
        Some(1_000_000)
    } else {
        None
    }
}

pub open spec fn pow10(n: nat) -> int
    decreases n,
{
    if n == 0 {
        1
    } else {
        10 * pow10((n - 1) as nat)
    }
}

/// The integer that the fraction digits `ds` spell.
pub open spec fn fraction_value(ds: Seq<char>) -> int
    decreases ds.len(),
{
    if ds.len() == 0 {
        0
    } else {
        digit_value(ds[0]) * pow10((ds.len() - 1) as nat) + fraction_value(ds.drop_first())
    }
}

/// The whole nanoseconds of the fraction `0.ds` of a unit of `k`
/// nanoseconds, truncated.
pub open spec fn fraction_ns(ds: Seq<char>, k: int) -> int {
    (k * fraction_value(ds)) / pow10(ds.len())
}

/// The total of the segments of `s[i..]` added to `acc` nanoseconds, read
/// from left to right, or the text of the first failure: a segment that
/// does not start with a digit, a number without a unit, a whole part that
/// is not a `u64`, hours or minutes whose whole seconds are not a `u64`, an
/// unknown unit, or a total past the largest `Duration`.
pub open spec fn duration_fold(s: Seq<char>, i: int, acc: int) -> Result<int, Seq<char>>
    decreases s.len() - i,
{
    if i < 0 || i >= s.len() {
        Ok(acc)
    } else {
        let n = digit_run(s, i);
        let f = fraction_run(s, i + n);
        let len = number_len(s, i);
        let num = s.subrange(i, i + len);
        let u = alpha_run(s, i + len);
        let unit = s.subrange(i + len, i + len + u);
        proof {
            lemma_runs_bounded(s, i);
        }
        if n == 0 {
            Err("expected digit at "@ + str_debug(s.subrange(i, s.len() as int)))
        } else if u == 0 {
            Err("missing unit after "@ + str_debug(num))
        } else {
            match spec_parse_int(s.subrange(i, i + n), 0, u64::MAX as int) {
                Err(_) => Err("bad number "@ + str_debug(num)),
                Ok(v) => {
                    if unit == seq!['h'] && v * 3600 > u64::MAX {
                        Err("overflow in hours"@)
                    } else if unit == seq!['m'] && v * 60 > u64::MAX {
                        Err("overflow in minutes"@)
                    } else {
                        match unit_ns(unit) {
                            None => Err(
                                "unknown duration unit "@ + str_debug(unit) + " \u{2014} use h, m, s, ms"@,
                            ),
                            Some(k) => {
                                let seg = segment_ns(s, i, v, k);
                                if acc + seg > max_total_ns() {
                                    Err("duration total overflow"@)
                                } else {
                                    duration_fold(s, i + len + u, acc + seg)
                                }
                            },
                        }
                    }
                },
            }
        }
    }
}

/// The total, in nanoseconds, of the duration that `s` writes, or the text
/// of the failure; an empty text is refused.
pub open spec fn spec_duration_ns(s: Seq<char>) -> Result<int, Seq<char>> {
    if s.len() == 0 {
        Err("empty duration string"@)
    } else {
        duration_fold(s, 0, 0)
    }
}

/// The `Duration` of `secs` seconds and `nanos` nanoseconds.
pub uninterp spec fn duration_from(secs: u64, nanos: u32) -> std::time::Duration;

/// std's `Duration::new(secs, nanos)`; with `nanos` below one second it does
/// not carry and cannot overflow.
#[verifier::external_body]
pub(crate) fn make_duration(secs: u64, nanos: u32) -> (d: std::time::Duration)
    requires
        nanos < 1_000_000_000,
    ensures
        d == duration_from(secs, nanos),
{
    std::time::Duration::new(secs, nanos)
}

/// The `Duration` of `ns` nanoseconds.
pub open spec fn duration_of_ns(ns: int) -> std::time::Duration {
    duration_from((ns / 1_000_000_000) as u64, (ns % 1_000_000_000) as u32)
}

pub proof fn lemma_runs_bounded(s: Seq<char>, i: int)
    requires
        0 <= i <= s.len(),
    ensures
        i + digit_run(s, i) <= i + number_len(s, i) <= s.len(),
        i + number_len(s, i) + alpha_run(s, i + number_len(s, i)) <= s.len(),
        fraction_run(s, i + digit_run(s, i)) > 0 ==> number_len(s, i) == digit_run(s, i) + 1
            + fraction_run(s, i + digit_run(s, i)),
        fraction_run(s, i + digit_run(s, i)) == 0 ==> number_len(s, i) == digit_run(s, i),
{
    lemma_digit_run_bounded(s, i);
    let n = digit_run(s, i);
    if i + n < s.len() {
        lemma_digit_run_bounded(s, i + n + 1);
    }
    lemma_alpha_run_bounded(s, i + number_len(s, i));
}

pub proof fn lemma_digit_run_bounded(s: Seq<char>, i: int)
    requires
        0 <= i <= s.len(),
    ensures
        i + digit_run(s, i) <= s.len(),
    decreases s.len() - i,
{
    if i < s.len() {
        lemma_digit_run_bounded(s, i + 1);
    }
}

pub proof fn lemma_alpha_run_bounded(s: Seq<char>, i: int)
    requires
        0 <= i <= s.len(),
    ensures
        i + alpha_run(s, i) <= s.len(),
    decreases s.len() - i,
{
    if i < s.len() {
        lemma_alpha_run_bounded(s, i + 1);
    }
}

proof fn lemma_digit_run_step(s: Seq<char>, i: int, j: int)
    requires
        0 <= i <= j <= s.len(),
        forall|k: int| i <= k < j ==> is_digit(#[trigger] s[k]),
    ensures
        digit_run(s, i) == (j - i) + digit_run(s, j),
    decreases j - i,
{
    if i < j {
        lemma_digit_run_step(s, i + 1, j);
    }
}

proof fn lemma_alpha_run_step(s: Seq<char>, i: int, j: int)
    requires
        0 <= i <= j <= s.len(),
        forall|k: int| i <= k < j ==> is_ascii_alpha(#[trigger] s[k]),
    ensures
        alpha_run(s, i) == (j - i) + alpha_run(s, j),
    decreases j - i,
{
    if i < j {
        lemma_alpha_run_step(s, i + 1, j);
    }
}

proof fn lemma_fraction_step(k: int, d: int, v: int, c: int)
    requires
        0 <= k,
        0 <= d,
        0 <= v,
        0 < c,
    ensures
        (k * (d * c + v)) / (c * 10) == (k * d + (k * v) / c) / 10,
{
    assert(k * (d * c + v) == (k * d) * c + k * v) by (nonlinear_arith);
    assert(k * v >= 0) by (nonlinear_arith)
        requires
            0 <= k,
            0 <= v,
    ;
    vstd::arithmetic::div_mod::lemma_hoist_over_denominator(k * v, k * d, c as nat);
    assert(k * (d * c + v) >= 0) by (nonlinear_arith)
        requires
            0 <= k,
            0 <= d,
            0 <= v,
            0 < c,
    ;
    vstd::arithmetic::div_mod::lemma_div_denominator(k * (d * c + v), c, 10);
}

proof fn lemma_pow10_positive(n: nat)
    ensures
        pow10(n) >= 1,
    decreases n,
{
    if n > 0 {
        lemma_pow10_positive((n - 1) as nat);
    }
}

proof fn lemma_fraction_value_nonneg(ds: Seq<char>)
    requires
        forall|j: int| 0 <= j < ds.len() ==> is_digit(#[trigger] ds[j]),
    ensures
        fraction_value(ds) >= 0,
    decreases ds.len(),
{
    if ds.len() > 0 {
        lemma_fraction_value_nonneg(ds.drop_first());
        lemma_pow10_positive((ds.len() - 1) as nat);
        assert(digit_value(ds[0]) * pow10((ds.len() - 1) as nat) >= 0) by (nonlinear_arith)
            requires
                digit_value(ds[0]) >= 0,
                pow10((ds.len() - 1) as nat) >= 1,
        ;
    }
}

/// The truncated nanoseconds of the fraction written in `chars[lo..hi]`
/// (all digits) of a unit of `k` nanoseconds, read from its last digit to
/// its first so that every step stays below `k`.
fn fraction_nanos(chars: &Vec<char>, lo: usize, hi: usize, k: u128) -> (r: u128)
    requires
        lo <= hi <= chars.len(),
        forall|j: int| lo <= j < hi ==> is_digit(#[trigger] chars@[j]),
        k <= 3_600_000_000_000,
    ensures
        r == fraction_ns(chars@.subrange(lo as int, hi as int), k as int),
        r <= k,
{
    let mut t: u128 = 0;
    let mut j = hi;
    assert(chars@.subrange(hi as int, hi as int) =~= Seq::<char>::empty());
    while j > lo
        invariant
            lo <= j <= hi <= chars.len(),
            forall|m: int| lo <= m < hi ==> is_digit(#[trigger] chars@[m]),
            k <= 3_600_000_000_000,
            t <= k,
            t == fraction_ns(chars@.subrange(j as int, hi as int), k as int),
        decreases j,
    {
        let ghost rest = chars@.subrange(j as int, hi as int);
        j = j - 1;
        let ghost ds = chars@.subrange(j as int, hi as int);
        assert(ds.drop_first() =~= rest);
        assert(ds[0] == chars@[j as int]);
        assert(is_digit(chars@[j as int]));
        let d = (chars[j] as u32 - 48) as u128;
        assert(d <= 9);
        assert(k * d <= 9 * k && 9 * k <= 32_400_000_000_000) by (nonlinear_arith)
            requires
                d <= 9,
                k <= 3_600_000_000_000,
        ;
        proof {
            assert forall|m: int| 0 <= m < rest.len() implies is_digit(#[trigger] rest[m]) by {
                assert(rest[m] == chars@[j + 1 + m]);
            }
            lemma_fraction_value_nonneg(rest);
            lemma_pow10_positive(rest.len());
            lemma_fraction_step(k as int, d as int, fraction_value(rest), pow10(rest.len()));
            assert(pow10(ds.len()) == pow10(rest.len()) * 10);
        }
        t = (k * d + t) / 10;
    }
    t
}

/// Reads a duration written as segments such as `"1h30m45s"` or `"1.5h"`;
/// gives the total in nanoseconds or the text of the failure.
pub fn parse_duration_ns(s: &str) -> (r: Result<u128, String>)
    ensures
        match (r, spec_duration_ns(s@)) {
            (Ok(a), Ok(b)) => a == b && 0 <= b <= max_total_ns(),
            (Err(a), Err(b)) => a@ == b,
            _ => false,
        },
{
    let chars = chars_of(s);
    let n = chars.len();
    if n == 0 {
        return Err(String::from_str("empty duration string"));
    }
    let ghost sv = chars@;
    let mut acc: u128 = 0;
    let mut i: usize = 0;
    while i < n
        invariant
            sv == s@,
            chars@ == sv,
            n == sv.len(),
            0 <= i <= n,
            0 <= acc <= max_total_ns(),
            spec_duration_ns(sv) == duration_fold(sv, i as int, acc as int),
        decreases n - i,
    {
        proof {
            lemma_runs_bounded(sv, i as int);
        }
        // whole digits
        let mut j = i;
        while j < n && '0' <= chars[j] && chars[j] <= '9'
            invariant
                chars@ == sv,
                n == sv.len(),
                i <= j <= n,
                forall|k: int| i <= k < j ==> is_digit(#[trigger] sv[k]),
            decreases n - j,
        {
            j = j + 1;
        }
        proof {
            lemma_digit_run_step(sv, i as int, j as int);
        }
        assert(digit_run(sv, j as int) == 0);
        if j == i {
            let rest = string_of_range(&chars, i, n);
            let mut e = String::from_str("expected digit at ");
            e.append(debug_text(rest.as_str()).as_str());
            return Err(e);
        }
        // fraction digits
        let mut e_num = j;
        let has_fraction = j < n && n - j > 1 && chars[j] == '.' && '0' <= chars[j + 1] && chars[j + 1] <= '9';
        if has_fraction {
            let mut f = j + 1;
            while f < n && '0' <= chars[f] && chars[f] <= '9'
                invariant
                    chars@ == sv,
                    n == sv.len(),
                    j + 1 <= f <= n,
                    forall|k: int| j + 1 <= k < f ==> is_digit(#[trigger] sv[k]),
                decreases n - f,
            {
                f = f + 1;
            }
            proof {
                lemma_digit_run_step(sv, j + 1, f as int);
            }
            assert(digit_run(sv, f as int) == 0);
            e_num = f;
        } else {
            proof {
                if j < n && sv[j as int] == '.' {
                    if j + 1 < n {
                        assert(!is_digit(sv[j + 1]));
                    }
                    assert(digit_run(sv, j + 1) == 0);
                }
            }
        }
        assert(number_len(sv, i as int) == e_num - i);
        // unit letters
        let mut k = e_num;
        while k < n && (('a' <= chars[k] && chars[k] <= 'z') || ('A' <= chars[k] && chars[k] <= 'Z'))
            invariant
                chars@ == sv,
                n == sv.len(),
                e_num <= k <= n,
                forall|m: int| e_num <= m < k ==> is_ascii_alpha(#[trigger] sv[m]),
            decreases n - k,
        {
            k = k + 1;
        }
        proof {
            lemma_alpha_run_step(sv, e_num as int, k as int);
        }
        assert(alpha_run(sv, k as int) == 0);
        let num = string_of_range(&chars, i, e_num);
        if k == e_num {
            let mut e = String::from_str("missing unit after ");
            e.append(debug_text(num.as_str()).as_str());
            return Err(e);
        }
        let whole = string_of_range(&chars, i, j);
        let v: u128 = match parse_int_parts(whole.as_str(), 0, u64::MAX as u128) {
            Ok((_, m)) => m,
            Err(_) => {
                let mut e = String::from_str("bad number ");
                e.append(debug_text(num.as_str()).as_str());
                return Err(e);
            },
        };
        let ghost unit = sv.subrange(e_num as int, k as int);
        assert(unit.len() == k - e_num);
        assert(k - e_num >= 1 ==> unit[0] == chars@[e_num as int]);
        let is_h = k - e_num == 1 && chars[e_num] == 'h';
        let is_m = k - e_num == 1 && chars[e_num] == 'm';
        let is_s = k - e_num == 1 && chars[e_num] == 's';
        let is_ms = k - e_num == 2 && chars[e_num] == 'm' && chars[e_num + 1] == 's';
        assert(is_h == (unit == seq!['h'])) by {
            if k - e_num == 1 {
                assert(unit =~= seq![sv[e_num as int]]);
            } else {
                assert(unit.len() != 1);
            }
        }
        assert(is_m == (unit == seq!['m'])) by {
            if k - e_num == 1 {
                assert(unit =~= seq![sv[e_num as int]]);
            } else {
                assert(unit.len() != 1);
            }
        }
        assert(is_s == (unit == seq!['s'])) by {
            if k - e_num == 1 {
                assert(unit =~= seq![sv[e_num as int]]);
            } else {
                assert(unit.len() != 1);
            }
        }
        assert(is_ms == (unit == seq!['m', 's'])) by {
            if k - e_num == 2 {
                assert(unit =~= seq![sv[e_num as int], sv[e_num + 1]]);
            } else {
                assert(unit.len() != 2);
            }
        }
        let per: u128;
        if is_h {
            if v > (u64::MAX as u128) / 3600 {
                return Err(String::from_str("overflow in hours"));
            }
            per = 3_600_000_000_000;
        } else if is_m {
            if v > (u64::MAX as u128) / 60 {
                return Err(String::from_str("overflow in minutes"));
            }
            per = 60_000_000_000;
        } else if is_s {
            per = 1_000_000_000;
        } else if is_ms {
            per = 1_000_000;
        } else {
            let u = string_of_range(&chars, e_num, k);
            let mut e = String::from_str("unknown duration unit ");
            e.append(debug_text(u.as_str()).as_str());
            e.append(" \u{2014} use h, m, s, ms");
            return Err(e);
        }
        assert(v * per <= (u64::MAX as int) * 1_000_000_000) by (nonlinear_arith)
            requires
                v <= u64::MAX,
                per == 3_600_000_000_000 ==> v <= (u64::MAX as int) / 3600,
                per == 60_000_000_000 ==> v <= (u64::MAX as int) / 60,
                per == 3_600_000_000_000 || per == 60_000_000_000 || per == 1_000_000_000 || per
                    == 1_000_000,
        ;
        let frac: u128 = if has_fraction {
            fraction_nanos(&chars, j + 1, e_num, per)
        } else {
            0
        };
        let add = v * per + frac;
        if acc + add > (u64::MAX as u128) * 1_000_000_000 + 999_999_999 {
            return Err(String::from_str("duration total overflow"));
        }
        acc = acc + add;
        i = k;
    }
    Ok(acc)
}

proof fn lemma_digit_run_concat(a: Seq<char>, b: Seq<char>, i: int)
    requires
        0 <= i <= a.len(),
    ensures
        digit_run(a + b, i) == digit_run(a, i) + (if i + digit_run(a, i) == a.len() {
            digit_run(b, 0)
        } else {
            0
        }),
    decreases a.len() - i,
{
    lemma_digit_run_bounded(a, i);
    if i < a.len() {
        assert((a + b)[i] == a[i]);
        lemma_digit_run_concat(a, b, i + 1);
    } else {
        lemma_digit_run_shift(a, b, 0);
    }
}

proof fn lemma_alpha_run_concat(a: Seq<char>, b: Seq<char>, i: int)
    requires
        0 <= i <= a.len(),
    ensures
        alpha_run(a + b, i) == alpha_run(a, i) + (if i + alpha_run(a, i) == a.len() {
            alpha_run(b, 0)
        } else {
            0
        }),
    decreases a.len() - i,
{
    lemma_alpha_run_bounded(a, i);
    if i < a.len() {
        assert((a + b)[i] == a[i]);
        lemma_alpha_run_concat(a, b, i + 1);
    } else {
        lemma_alpha_run_shift(a, b, 0);
    }
}

proof fn lemma_digit_run_shift(p: Seq<char>, b: Seq<char>, j: int)
    requires
        0 <= j,
    ensures
        digit_run(p + b, p.len() + j) == digit_run(b, j),
    decreases b.len() - j,
{
    if j < b.len() {
        assert((p + b)[p.len() + j] == b[j]);
        lemma_digit_run_shift(p, b, j + 1);
    }
}

proof fn lemma_alpha_run_shift(p: Seq<char>, b: Seq<char>, j: int)
    requires
        0 <= j,
    ensures
        alpha_run(p + b, p.len() + j) == alpha_run(b, j),
    decreases b.len() - j,
{
    if j < b.len() {
        assert((p + b)[p.len() + j] == b[j]);
        lemma_alpha_run_shift(p, b, j + 1);
    }
}

proof fn lemma_digit_run_digits(s: Seq<char>, j: int)
    requires
        0 <= j,
    ensures
        forall|t: int| j <= t < j + digit_run(s, j) ==> is_digit(#[trigger] s[t]),
    decreases s.len() - j,
{
    if j < s.len() && is_digit(s[j]) {
        lemma_digit_run_digits(s, j + 1);
    }
}

/// The nanoseconds of a segment: whole units plus the truncated fraction.
pub open spec fn segment_ns(s: Seq<char>, i: int, v: int, k: int) -> int {
    let n = digit_run(s, i);
    let f = fraction_run(s, i + n);
    v * k + if f > 0 {
        fraction_ns(s.subrange(i + n + 1, i + number_len(s, i)), k)
    } else {
        0
    }
}

proof fn lemma_segment_nonneg(s: Seq<char>, i: int, v: int, k: int)
    requires
        0 <= i <= s.len(),
        0 <= v,
        0 <= k,
    ensures
        segment_ns(s, i, v, k) >= 0,
{
    lemma_runs_bounded(s, i);
    let n = digit_run(s, i);
    let f = fraction_run(s, i + n);
    assert(v * k >= 0) by (nonlinear_arith)
        requires
            v >= 0,
            k >= 0,
    ;
    if f > 0 {
        let ds = s.subrange(i + n + 1, i + number_len(s, i));
        lemma_digit_run_digits(s, i + n + 1);
        assert forall|t: int| 0 <= t < ds.len() implies is_digit(#[trigger] ds[t]) by {
            assert(ds[t] == s[i + n + 1 + t]);
        }
        lemma_fraction_value_nonneg(ds);
        lemma_pow10_positive(ds.len());
        let fv = fraction_value(ds);
        let p = pow10(ds.len());
        assert(k * fv >= 0) by (nonlinear_arith)
            requires
                k >= 0,
                fv >= 0,
        ;
        assert((k * fv) / p >= 0) by (nonlinear_arith)
            requires
                k * fv >= 0,
                p >= 1,
        ;
    }
}

proof fn lemma_fraction_run_shift(p: Seq<char>, b: Seq<char>, j: int)
    requires
        0 <= j,
    ensures
        fraction_run(p + b, p.len() + j) == fraction_run(b, j),
{
    lemma_digit_run_shift(p, b, j + 1);
    if j < b.len() {
        assert((p + b)[p.len() + j] == b[j]);
    }
}

/// Reading `p + b` from inside `b` is reading `b`.
proof fn lemma_fold_shift(p: Seq<char>, b: Seq<char>, j: int, acc: int)
    requires
        0 <= j,
    ensures
        duration_fold(p + b, p.len() + j, acc) == duration_fold(b, j, acc),
    decreases b.len() - j,
{
    let s = p + b;
    let i = p.len() + j;
    if j < b.len() {
        lemma_digit_run_shift(p, b, j);
        let n = digit_run(b, j);
        lemma_runs_bounded(b, j);
        lemma_fraction_run_shift(p, b, j + n);
        let f = fraction_run(b, j + n);
        let len = number_len(b, j);
        assert(number_len(s, i) == len);
        lemma_alpha_run_shift(p, b, j + len);
        let u = alpha_run(b, j + len);
        assert(s.subrange(i, i + n) =~= b.subrange(j, j + n));
        assert(s.subrange(i, i + len) =~= b.subrange(j, j + len));
        assert(s.subrange(i + len, i + len + u) =~= b.subrange(j + len, j + len + u));
        assert(s.subrange(i, s.len() as int) =~= b.subrange(j, b.len() as int));
        if f > 0 {
            assert(s.subrange(i + n + 1, i + len) =~= b.subrange(j + n + 1, j + len));
        }
        if n > 0 && u > 0 {
            match spec_parse_int(b.subrange(j, j + n), 0, u64::MAX as int) {
                Ok(v) => {
                    match unit_ns(b.subrange(j + len, j + len + u)) {
                        Some(k) => {
                            assert(segment_ns(s, i, v, k) == segment_ns(b, j, v, k));
                            lemma_fold_shift(p, b, j + len + u, acc + segment_ns(b, j, v, k));
                        },
                        None => {},
                    }
                },
                Err(_) => {},
            }
        }
    }
}

/// A successful reading never lowers the total.
proof fn lemma_fold_grows(s: Seq<char>, i: int, acc: int)
    requires
        0 <= i,
        0 <= acc,
    ensures
        duration_fold(s, i, acc) matches Ok(r) ==> acc <= r,
    decreases s.len() - i,
{
    if i < s.len() {
        let n = digit_run(s, i);
        lemma_runs_bounded(s, i);
        let len = number_len(s, i);
        let u = alpha_run(s, i + len);
        if n > 0 && u > 0 {
            let whole = s.subrange(i, i + n);
            crate::number::lemma_parsed_int_in_bounds(whole, 0, u64::MAX as int);
            match spec_parse_int(whole, 0, u64::MAX as int) {
                Ok(v) => {
                    match unit_ns(s.subrange(i + len, i + len + u)) {
                        Some(k) => {
                            lemma_segment_nonneg(s, i, v, k);
                            lemma_fold_grows(s, i + len + u, acc + segment_ns(s, i, v, k));
                        },
                        None => {},
                    }
                },
                Err(_) => {},
            }
        }
    }
}

/// Starting `c` nanoseconds higher ends `c` nanoseconds higher, as long as
/// the end total fits.
proof fn lemma_fold_offset(s: Seq<char>, i: int, acc: int, c: int)
    requires
        0 <= i,
        0 <= acc,
        0 <= c,
        duration_fold(s, i, acc) matches Ok(r) && r + c <= max_total_ns(),
    ensures
        duration_fold(s, i, acc) matches Ok(r) && duration_fold(s, i, acc + c) == Ok::<
            int,
            Seq<char>,
        >(r + c),
    decreases s.len() - i,
{
    if i < s.len() {
        let n = digit_run(s, i);
        lemma_runs_bounded(s, i);
        let len = number_len(s, i);
        let u = alpha_run(s, i + len);
        let whole = s.subrange(i, i + n);
        crate::number::lemma_parsed_int_in_bounds(whole, 0, u64::MAX as int);
        let v = spec_parse_int(whole, 0, u64::MAX as int)->Ok_0;
        let k = unit_ns(s.subrange(i + len, i + len + u))->Some_0;
        lemma_segment_nonneg(s, i, v, k);
        let seg = segment_ns(s, i, v, k);
        lemma_fold_grows(s, i + len + u, acc + seg);
        lemma_fold_offset(s, i + len + u, acc + seg, c);
    }
}

/// Reading `a + b` up to the end of the valid duration `a` gives the total
/// of `a`, when `b` is empty or starts with a digit.
proof fn lemma_fold_prefix(a: Seq<char>, b: Seq<char>, i: int, acc: int)
    requires
        0 <= i <= a.len(),
        duration_fold(a, i, acc) is Ok,
        b.len() == 0 || is_digit(b[0]),
    ensures
        duration_fold(a + b, i, acc) == duration_fold(a + b, a.len() as int, duration_fold(
            a,
            i,
            acc,
        )->Ok_0),
    decreases a.len() - i,
{
    let s = a + b;
    if i < a.len() {
        lemma_runs_bounded(a, i);
        let n = digit_run(a, i);
        let f = fraction_run(a, i + n);
        let len = number_len(a, i);
        let u = alpha_run(a, i + len);
        lemma_digit_run_concat(a, b, i);
        assert(i + n < a.len());
        assert(s[i + n] == a[i + n]);
        if a[i + n] == '.' {
            assert(f > 0) by {
                if f == 0 {
                    assert(!is_ascii_alpha(a[i + n]));
                }
            }
            lemma_digit_run_concat(a, b, i + n + 1);
        }
        assert(fraction_run(s, i + n) == f);
        assert(number_len(s, i) == len);
        lemma_alpha_run_concat(a, b, i + len);
        if i + len + u == a.len() && b.len() > 0 {
            assert(alpha_run(b, 0) == 0);
        }
        assert(alpha_run(s, i + len) == u);
        assert(s.subrange(i, i + n) =~= a.subrange(i, i + n));
        assert(s.subrange(i, i + len) =~= a.subrange(i, i + len));
        assert(s.subrange(i + len, i + len + u) =~= a.subrange(i + len, i + len + u));
        if f > 0 {
            assert(s.subrange(i + n + 1, i + len) =~= a.subrange(i + n + 1, i + len));
        }
        let v = spec_parse_int(a.subrange(i, i + n), 0, u64::MAX as int)->Ok_0;
        let k = unit_ns(a.subrange(i + len, i + len + u))->Some_0;
        assert(segment_ns(s, i, v, k) == segment_ns(a, i, v, k));
        lemma_fold_prefix(a, b, i + len + u, acc + segment_ns(a, i, v, k));
    } else {
        assert(duration_fold(a, i, acc) == Ok::<int, Seq<char>>(acc));
    }
}

/// Durations written one after the other add up: when `a` and `b` are valid
/// durations and their sum fits, `a + b` is valid and its total is the sum
/// (so `"1h"` then `"2h"` is three hours, and `"1h"` then `"30m"` ninety
/// minutes).
pub proof fn lemma_duration_concat(a: Seq<char>, b: Seq<char>)
    requires
        spec_duration_ns(a) is Ok,
        spec_duration_ns(b) is Ok,
        spec_duration_ns(a)->Ok_0 + spec_duration_ns(b)->Ok_0 <= max_total_ns(),
    ensures
        spec_duration_ns(a + b) == Ok::<int, Seq<char>>(
            spec_duration_ns(a)->Ok_0 + spec_duration_ns(b)->Ok_0,
        ),
{
    let x = spec_duration_ns(a)->Ok_0;
    let y = spec_duration_ns(b)->Ok_0;
    assert(digit_run(b, 0) > 0);
    assert(is_digit(b[0]));
    lemma_fold_prefix(a, b, 0, 0);
    lemma_fold_shift(a, b, 0, x);
    lemma_fold_grows(a, 0, 0);
    lemma_fold_offset(b, 0, 0, x);
    assert((a + b).len() > 0);
}

/// A duration of one segment, a run of digits followed by `h`, `m`, `s` or
/// `ms`, is the number those digits spell (leading zeros and all) times the
/// unit: `"05m"` is five minutes, as `"5m"` is. It is accepted exactly when
/// the number is a `u64` and, for hours and minutes, so are the seconds it
/// makes.
pub proof fn lemma_single_segment(d: Seq<char>, u: Seq<char>)
    requires
        d.len() > 0,
        all_digits(d),
        unit_ns(u) is Some,
    ensures
        spec_duration_ns(d + u) is Ok <==> {
            &&& digits_value(d) <= u64::MAX
            &&& u == seq!['h'] ==> digits_value(d) * 3600 <= u64::MAX
            &&& u == seq!['m'] ==> digits_value(d) * 60 <= u64::MAX
        },
        spec_duration_ns(d + u) matches Ok(t) ==> t == digits_value(d) * unit_ns(u)->Some_0,
{
    let s = d + u;
    let n = d.len() as int;
    assert(u =~= seq!['h'] || u =~= seq!['m'] || u =~= seq!['s'] || u =~= seq!['m', 's']);
    assert forall|k: int| 0 <= k < n implies is_digit(#[trigger] s[k]) by {
        assert(s[k] == d[k]);
    }
    lemma_digit_run_step(s, 0, n);
    assert(s[n] == u[0]);
    assert(digit_run(s, n) == 0);
    assert(digit_run(s, 0) == n);
    assert(fraction_run(s, n) == 0);
    assert(number_len(s, 0) == n);
    assert forall|k: int| n <= k < s.len() implies is_ascii_alpha(#[trigger] s[k]) by {
        assert(s[k] == u[k - n]);
    }
    lemma_alpha_run_step(s, n, s.len() as int);
    assert(alpha_run(s, n) == u.len());
    assert(s.subrange(0, n) =~= d);
    assert(s.subrange(n, n + u.len()) =~= u);
    assert(!(d[0] == '+') && !(d[0] == '-')) by {
        assert(is_digit(d[0]));
    }
    lemma_fold_value(d, u64::MAX as int, IntErrorKind::PosOverflow);
    let v = digits_value(d);
    let k = unit_ns(u)->Some_0;
    if v <= u64::MAX {
        assert(spec_parse_int(d, 0, u64::MAX as int) == Ok::<int, IntErrorKind>(v));
        assert(segment_ns(s, 0, v, k) == v * k);
        if (u == seq!['h'] ==> v * 3600 <= u64::MAX) && (u == seq!['m'] ==> v * 60 <= u64::MAX) {
            assert(v * k <= max_total_ns()) by (nonlinear_arith)
                requires
                    0 <= v <= u64::MAX,
                    k == 3_600_000_000_000 ==> v * 3600 <= u64::MAX,
                    k == 60_000_000_000 ==> v * 60 <= u64::MAX,
                    k == 3_600_000_000_000 || k == 60_000_000_000 || k == 1_000_000_000 || k
                        == 1_000_000,
                    max_total_ns() == (u64::MAX as int) * 1_000_000_000 + 999_999_999,
            ;
            assert(duration_fold(s, n + u.len(), v * k) == Ok::<int, Seq<char>>(v * k));
        }
    } else {
        assert(spec_parse_int(d, 0, u64::MAX as int) is Err);
    }
}

proof fn lemma_fraction_value_push(ds: Seq<char>, c: char)
    ensures
        fraction_value(ds.push(c)) == fraction_value(ds) * 10 + digit_value(c),
    decreases ds.len(),
{
    let t = ds.push(c);
    if ds.len() == 0 {
        assert(t.drop_first() =~= Seq::<char>::empty());
        assert(t[0] == c);
        assert(pow10(0) == 1);
        assert(fraction_value(t) == digit_value(c) * pow10(0) + fraction_value(t.drop_first()));
    } else {
        assert(t.drop_first() =~= ds.drop_first().push(c));
        assert(t[0] == ds[0]);
        lemma_fraction_value_push(ds.drop_first(), c);
        let a = digit_value(ds[0]);
        let p = pow10((ds.len() - 1) as nat);
        assert(pow10(ds.len() as nat) == 10 * p);
        assert(a * (10 * p) + (fraction_value(ds.drop_first()) * 10 + digit_value(c)) == (a * p
            + fraction_value(ds.drop_first())) * 10 + digit_value(c)) by (nonlinear_arith);
        assert(((t.len() - 1) as nat) == ds.len() as nat);
        assert(fraction_value(t) == a * pow10(ds.len() as nat) + fraction_value(t.drop_first()));
    }
}

/// Fraction digits read from the front spell the same number as when read
/// from the back.
proof fn lemma_fraction_value_is_digits_value(ds: Seq<char>)
    ensures
        fraction_value(ds) == digits_value(ds),
    decreases ds.len(),
{
    if ds.len() > 0 {
        lemma_fraction_value_is_digits_value(ds.drop_last());
        lemma_fraction_value_push(ds.drop_last(), ds.last());
        assert(ds.drop_last().push(ds.last()) =~= ds);
    }
}

/// A duration of one segment with a fraction, whole digits `d`, a `.`,
/// fraction digits `f` and a unit `h`, `m`, `s` or `ms`, is the whole number
/// of units plus the fraction `0.f` of a unit, truncated to whole
/// nanoseconds (`"1.5h"` is ninety minutes); when the whole number fits as in
/// `lemma_single_segment`, it is refused only when the total passes the
/// largest `Duration`.
pub proof fn lemma_fraction_segment(d: Seq<char>, f: Seq<char>, u: Seq<char>)
    requires
        d.len() > 0,
        all_digits(d),
        f.len() > 0,
        all_digits(f),
        unit_ns(u) is Some,
        digits_value(d) <= u64::MAX,
        u == seq!['h'] ==> digits_value(d) * 3600 <= u64::MAX,
        u == seq!['m'] ==> digits_value(d) * 60 <= u64::MAX,
    ensures
        ({
            let t = digits_value(d) * unit_ns(u)->Some_0 + (unit_ns(u)->Some_0 * digits_value(f))
                / pow10(f.len());
            spec_duration_ns(d + seq!['.'] + f + u) == if t <= max_total_ns() {
                Ok::<int, Seq<char>>(t)
            } else {
                Err("duration total overflow"@)
            }
        }),
{
    let s = d + seq!['.'] + f + u;
    let n = d.len() as int;
    let e = n + 1 + f.len();
    assert(u =~= seq!['h'] || u =~= seq!['m'] || u =~= seq!['s'] || u =~= seq!['m', 's']);
    assert forall|k: int| 0 <= k < n implies is_digit(#[trigger] s[k]) by {
        assert(s[k] == d[k]);
    }
    lemma_digit_run_step(s, 0, n);
    assert(s[n] == '.');
    assert(digit_run(s, n) == 0);
    assert forall|k: int| n + 1 <= k < e implies is_digit(#[trigger] s[k]) by {
        assert(s[k] == f[k - n - 1]);
    }
    lemma_digit_run_step(s, n + 1, e);
    assert(s[e] == u[0]);
    assert(digit_run(s, e) == 0);
    assert(fraction_run(s, n) == f.len());
    assert(number_len(s, 0) == e - 0);
    assert forall|k: int| e <= k < s.len() implies is_ascii_alpha(#[trigger] s[k]) by {
        assert(s[k] == u[k - e]);
    }
    lemma_alpha_run_step(s, e, s.len() as int);
    assert(alpha_run(s, e) == u.len());
    assert(s.subrange(0, n) =~= d);
    assert(s.subrange(n + 1, e) =~= f);
    assert(s.subrange(e, e + u.len()) =~= u);
    assert(!(d[0] == '+') && !(d[0] == '-')) by {
        assert(is_digit(d[0]));
    }
    lemma_fold_value(d, u64::MAX as int, IntErrorKind::PosOverflow);
    lemma_fraction_value_is_digits_value(f);
    let v = digits_value(d);
    let k = unit_ns(u)->Some_0;
    assert(spec_parse_int(d, 0, u64::MAX as int) == Ok::<int, IntErrorKind>(v));
    assert(segment_ns(s, 0, v, k) == v * k + (k * digits_value(f)) / pow10(f.len()));
    let t = v * k + (k * digits_value(f)) / pow10(f.len());
    if t <= max_total_ns() {
        assert(duration_fold(s, e + u.len(), t) == Ok::<int, Seq<char>>(t));
    }
}

} // verus!
