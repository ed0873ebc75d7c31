//! Decimal integers as `str::parse` reads them for the primitive integer
//! types: an optional sign, then only ASCII digits, read from left to right
//! and refused at the first character that is not a digit or at the first
//! digit that takes the value past the bounds of the type.

use vstd::prelude::*;

verus! {

/// Why a text is not an integer of the target type.
#[derive(Debug, Clone, Copy, PartialEq, Eq, Structural)]
pub enum IntErrorKind {
    /// The text is empty.
    Empty,
    /// A character that is not a digit, or a lone sign.
    InvalidDigit,
    /// The value is above the largest value of the type.
    PosOverflow,
    /// The value is below the smallest value of the type.
    NegOverflow,
}

/// The text std gives for each kind of integer parse failure.
pub open spec fn int_error_text(k: IntErrorKind) -> Seq<char> {
    match k {
        IntErrorKind::Empty => "cannot parse integer from empty string"@,
        IntErrorKind::InvalidDigit => "invalid digit found in string"@,
        IntErrorKind::PosOverflow => "number too large to fit in target type"@,
        IntErrorKind::NegOverflow => "number too small to fit in target type"@,
    }
}

pub open spec fn is_digit(c: char) -> bool {
    '0' <= c <= '9'
}

pub open spec fn digit_value(c: char) -> int {
    c as int - 48
}

/// Reads the digits `d[i..]` onto the value `acc`, from left to right:
/// a non-digit fails with `InvalidDigit`, and a digit that takes the value
/// above `limit` fails with `over`.
pub open spec fn fold_digits(d: Seq<char>, i: int, acc: int, limit: int, over: IntErrorKind) -> Result<
    int,
    IntErrorKind,
>
    decreases d.len() - i,
{
    if i >= d.len() {
        Ok(acc)
    } else if !is_digit(d[i]) {
        Err(IntErrorKind::InvalidDigit)
    } else if acc * 10 + digit_value(d[i]) > limit {
        Err(over)
    } else {
        fold_digits(d, i + 1, acc * 10 + digit_value(d[i]), limit, over)
    }
}

/// The integer that `s` denotes for a type whose values are `min ..= max`
/// (`min <= 0 <= max`), or why it denotes none. A `-` sign is a digit error
/// for an unsigned type (`min == 0`).
pub open spec fn spec_parse_int(s: Seq<char>, min: int, max: int) -> Result<int, IntErrorKind> {
    if s.len() == 0 {
        Err(IntErrorKind::Empty)
    } else if s.len() == 1 && (s[0] == '+' || s[0] == '-') {
        Err(IntErrorKind::InvalidDigit)
    } else if s[0] == '+' {
        fold_digits(s, 1, 0, max, IntErrorKind::PosOverflow)
    } else if s[0] == '-' && min < 0 {
        match fold_digits(s, 1, 0, -min, IntErrorKind::NegOverflow) {
            Ok(m) => Ok(-m),
            Err(k) => Err(k),
        }
    } else {
        fold_digits(s, 0, 0, max, IntErrorKind::PosOverflow)
    }
}

proof fn lemma_fold_bounded(d: Seq<char>, i: int, acc: int, limit: int, over: IntErrorKind)
    requires
        0 <= i,
        0 <= acc <= limit,
    ensures
        fold_digits(d, i, acc, limit, over) matches Ok(v) ==> 0 <= v <= limit,
    decreases d.len() - i,
{
    if i < d.len() && is_digit(d[i]) && acc * 10 + digit_value(d[i]) <= limit {
        lemma_fold_bounded(d, i + 1, acc * 10 + digit_value(d[i]), limit, over);
    }
}

proof fn lemma_step_bound(acc: int, dv: int, limit: int)
    requires
        0 <= dv <= 9,
        dv <= limit,
        0 <= acc,
    ensures
        (acc * 10 + dv > limit) <==> (acc > (limit - dv) / 10),
{
    assert((acc * 10 + dv > limit) <==> (acc > (limit - dv) / 10)) by (nonlinear_arith)
        requires
            0 <= dv <= 9,
            dv <= limit,
            0 <= acc,
    ;
}

/// Reads the digits of `chars[start..]` as a magnitude of at most `limit`.
fn read_digits(chars: &Vec<char>, start: usize, limit: u128, over: IntErrorKind) -> (r: Result<
    u128,
    IntErrorKind,
>)
    requires
        start <= chars.len(),
        9 <= limit,
    ensures
        match (r, fold_digits(chars@, start as int, 0, limit as int, over)) {
            (Ok(a), Ok(b)) => a == b,
            (Err(a), Err(b)) => a == b,
            _ => false,
        },
{
    let mut acc: u128 = 0;
    let mut i = start;
    while i < chars.len()
        invariant
            start <= i <= chars.len(),
            9 <= limit,
            acc <= limit,
            fold_digits(chars@, start as int, 0, limit as int, over) == fold_digits(
                chars@,
                i as int,
                acc as int,
                limit as int,
                over,
            ),
        decreases chars.len() - i,
    {
        let c = chars[i];
        if !('0' <= c && c <= '9') {
            return Err(IntErrorKind::InvalidDigit);
        }
        let dv = (c as u32 - 48) as u128;
        proof {
            lemma_step_bound(acc as int, dv as int, limit as int);
        }
        if acc > (limit - dv) / 10 {
            return Err(over);
        }
        acc = acc * 10 + dv;
        i = i + 1;
    }
    Ok(acc)
}

/// Reads `s` as an integer whose negative values reach down to `-neg_limit`
/// (none when `neg_limit == 0`) and whose positive values reach `pos_limit`.
/// On success gives whether the value is negative and its magnitude.
pub fn parse_int_parts(s: &str, neg_limit: u128, pos_limit: u128) -> (r: Result<
    (bool, u128),
    IntErrorKind,
>)
    requires
        9 <= pos_limit,
        neg_limit == 0 || 9 <= neg_limit,
    ensures
        match (r, spec_parse_int(s@, -neg_limit, pos_limit as int)) {
            (Ok((neg, m)), Ok(v)) => v == (if neg {
                -m
            } else {
                m as int
            }) && (neg ==> 0 < m <= neg_limit) && (!neg ==> m <= pos_limit),
            (Err(a), Err(b)) => a == b,
            _ => false,
        },
{
    let chars = crate::text::chars_of(s);
    let n = chars.len();
    if n == 0 {
        return Err(IntErrorKind::Empty);
    }
    if n == 1 && (chars[0] == '+' || chars[0] == '-') {
        return Err(IntErrorKind::InvalidDigit);
    }
    if chars[0] == '+' {
        let r = read_digits(&chars, 1, pos_limit, IntErrorKind::PosOverflow);
        proof {
            lemma_fold_bounded(chars@, 1, 0, pos_limit as int, IntErrorKind::PosOverflow);
        }
        match r {
            Ok(m) => Ok((false, m)),
            Err(k) => Err(k),
        }
    } else if chars[0] == '-' && neg_limit > 0 {
        let r = read_digits(&chars, 1, neg_limit, IntErrorKind::NegOverflow);
        proof {
            lemma_fold_bounded(chars@, 1, 0, neg_limit as int, IntErrorKind::NegOverflow);
        }
        match r {
            Ok(m) => {
                if m == 0 {
                    Ok((false, 0))
                } else {
                    Ok((true, m))
                }
            },
            Err(k) => Err(k),
        }
    } else {
        let r = read_digits(&chars, 0, pos_limit, IntErrorKind::PosOverflow);
        proof {
            lemma_fold_bounded(chars@, 0, 0, pos_limit as int, IntErrorKind::PosOverflow);
        }
        match r {
            Ok(m) => Ok((false, m)),
            Err(k) => Err(k),
        }
    }
}

/// The text std gives for an integer parse failure of kind `k`.
pub fn int_error_string(k: IntErrorKind) -> (r: String)
    ensures
        r@ == int_error_text(k),
{
    match k {
        IntErrorKind::Empty => String::from_str("cannot parse integer from empty string"),
        IntErrorKind::InvalidDigit => String::from_str("invalid digit found in string"),
        IntErrorKind::PosOverflow => String::from_str("number too large to fit in target type"),
        IntErrorKind::NegOverflow => String::from_str("number too small to fit in target type"),
    }
}

/// An integer that a text denotes lies within the bounds of its type.
pub proof fn lemma_parsed_int_in_bounds(s: Seq<char>, min: int, max: int)
    requires
        min <= 0 <= max,
    ensures
        spec_parse_int(s, min, max) matches Ok(v) ==> min <= v <= max,
{
    if s.len() > 0 {
        lemma_fold_bounded(s, 1, 0, max, IntErrorKind::PosOverflow);
        lemma_fold_bounded(s, 1, 0, -min, IntErrorKind::NegOverflow);
        lemma_fold_bounded(s, 0, 0, max, IntErrorKind::PosOverflow);
    }
}

proof fn lemma_fold_push(s: Seq<char>, c: char, i: int, acc: int, limit: int, over: IntErrorKind)
    requires
        0 <= i <= s.len(),
        is_digit(c),
        fold_digits(s, i, acc, limit, over) matches Ok(a) && a * 10 + digit_value(c) <= limit,
    ensures
        fold_digits(s, i, acc, limit, over) matches Ok(a) && fold_digits(s.push(c), i, acc, limit, over)
            == Ok::<int, IntErrorKind>(a * 10 + digit_value(c)),
    decreases s.len() - i,
{
    let t = s.push(c);
    assert(t[i] == if i < s.len() {
        s[i]
    } else {
        c
    });
    if i < s.len() {
        lemma_fold_push(s, c, i + 1, acc * 10 + digit_value(s[i]), limit, over);
    } else {
        assert(fold_digits(t, i + 1, acc * 10 + digit_value(c), limit, over) == Ok::<
            int,
            IntErrorKind,
        >(acc * 10 + digit_value(c)));
    }
}

proof fn lemma_decimal_digits(n: nat, limit: int)
    requires
        n <= limit,
    ensures
        crate::text::decimal(n).len() >= 1,
        is_digit(crate::text::decimal(n)[0]),
        fold_digits(crate::text::decimal(n), 0, 0, limit, IntErrorKind::PosOverflow) == Ok::<
            int,
            IntErrorKind,
        >(n as int),
    decreases n,
{
    let d = crate::text::decimal(n);
    if n < 10 {
        assert(d == seq![crate::text::digit_char(n)]);
        assert(fold_digits(d, 1, n as int, limit, IntErrorKind::PosOverflow) == Ok::<
            int,
            IntErrorKind,
        >(n as int));
    } else {
        let q = (n / 10) as nat;
        lemma_decimal_digits(q, limit);
        let c = crate::text::digit_char((n % 10) as nat);
        assert(d == crate::text::decimal(q).push(c));
        lemma_fold_push(crate::text::decimal(q), c, 0, 0, limit, IntErrorKind::PosOverflow);
        assert(d[0] == crate::text::decimal(q)[0]);
    }
}

/// The decimal rendering of a number that fits a type parses back to the
/// same number.
pub proof fn lemma_decimal_roundtrip(n: nat, min: int, max: int)
    requires
        min <= 0,
        n <= max,
    ensures
        spec_parse_int(crate::text::decimal(n), min, max) == Ok::<int, IntErrorKind>(n as int),
{
    lemma_decimal_digits(n, max);
}

/// Whether every character of `d` is an ASCII digit.
pub open spec fn all_digits(d: Seq<char>) -> bool {
    forall|i: int| 0 <= i < d.len() ==> is_digit(#[trigger] d[i])
}

/// The number that the digits `d` spell in base ten; leading zeros add
/// nothing to it.
pub open spec fn digits_value(d: Seq<char>) -> int
    decreases d.len(),
{
    if d.len() == 0 {
        0
    } else {
        10 * digits_value(d.drop_last()) + digit_value(d.last())
    }
}

/// The text after a leading `+` or `-`, or the whole text when it has none.
pub open spec fn unsigned_part(s: Seq<char>) -> Seq<char> {
    if s.len() > 0 && (s[0] == '+' || s[0] == '-') {
        s.drop_first()
    } else {
        s
    }
}

/// Reading one more character after the characters `s[i..]` extends the
/// reading of `s[i..]` by one step.
proof fn lemma_fold_push_any(s: Seq<char>, c: char, i: int, acc: int, limit: int, over: IntErrorKind)
    requires
        0 <= i <= s.len(),
    ensures
        fold_digits(s.push(c), i, acc, limit, over) == match fold_digits(s, i, acc, limit, over) {
            Ok(a) => if !is_digit(c) {
                Err(IntErrorKind::InvalidDigit)
            } else if a * 10 + digit_value(c) > limit {
                Err(over)
            } else {
                Ok(a * 10 + digit_value(c))
            },
            Err(e) => Err(e),
        },
    decreases s.len() - i,
{
    let t = s.push(c);
    if i < s.len() {
        assert(t[i] == s[i]);
        lemma_fold_push_any(s, c, i + 1, acc * 10 + digit_value(s[i]), limit, over);
    } else {
        assert(t[i] == c);
        assert(fold_digits(t, i + 1, acc * 10 + digit_value(c), limit, over) == Ok::<
            int,
            IntErrorKind,
        >(acc * 10 + digit_value(c)));
    }
}

/// Reading `s` from `i + 1` is reading `s` without its first character from `i`.
proof fn lemma_fold_drop_first(s: Seq<char>, i: int, acc: int, limit: int, over: IntErrorKind)
    requires
        0 <= i,
        s.len() > 0,
    ensures
        fold_digits(s, i + 1, acc, limit, over) == fold_digits(s.drop_first(), i, acc, limit, over),
    decreases s.len() - i,
{
    if i + 1 < s.len() {
        assert(s.drop_first()[i] == s[i + 1]);
        lemma_fold_drop_first(s, i + 1, acc * 10 + digit_value(s[i + 1]), limit, over);
    }
}

/// A run of digits reads as the number it spells when that number is at
/// most `limit`, and fails with `over` when it is larger; a text with a
/// character that is not a digit never reads as a number.
pub proof fn lemma_fold_value(d: Seq<char>, limit: int, over: IntErrorKind)
    requires
        0 <= limit,
    ensures
        all_digits(d) ==> digits_value(d) >= 0,
        all_digits(d) ==> fold_digits(d, 0, 0, limit, over) == if digits_value(d) <= limit {
            Ok::<int, IntErrorKind>(digits_value(d))
        } else {
            Err(over)
        },
        !all_digits(d) ==> fold_digits(d, 0, 0, limit, over) is Err,
    decreases d.len(),
{
    if d.len() > 0 {
        let p = d.drop_last();
        let c = d.last();
        lemma_fold_value(p, limit, over);
        assert(p.push(c) =~= d);
        lemma_fold_push_any(p, c, 0, 0, limit, over);
        if all_digits(d) {
            assert(all_digits(p)) by {
                assert forall|i: int| 0 <= i < p.len() implies is_digit(#[trigger] p[i]) by {
                    assert(p[i] == d[i]);
                }
            }
            assert(is_digit(d[d.len() - 1]));
        } else if all_digits(p) {
            assert(!is_digit(c)) by {
                if is_digit(c) {
                    assert forall|i: int| 0 <= i < d.len() implies is_digit(#[trigger] d[i]) by {
                        if i < p.len() {
                            assert(d[i] == p[i]);
                        }
                    }
                }
            }
        }
    }
}

/// An integer text is accepted exactly when it is an optional sign (`-` only
/// for a type with negative values) followed by one or more ASCII digits and
/// nothing else, and the number those digits spell, leading zeros and all,
/// lies within the type's bounds; the value is that number, negated after
/// `-`. An empty text is `Empty`, and digits past a bound are `PosOverflow`
/// or `NegOverflow`.
pub proof fn lemma_int_text_accepted(s: Seq<char>, min: int, max: int)
    requires
        min <= 0 <= max,
    ensures
        spec_parse_int(s, min, max) is Ok <==> {
            let d = unsigned_part(s);
            &&& d.len() > 0
            &&& all_digits(d)
            &&& s[0] == '-' ==> min < 0
            &&& if s[0] == '-' {
                min <= -digits_value(d)
            } else {
                digits_value(d) <= max
            }
        },
        spec_parse_int(s, min, max) matches Ok(v) ==> v == if s[0] == '-' {
            -digits_value(unsigned_part(s))
        } else {
            digits_value(unsigned_part(s))
        },
        s.len() == 0 ==> spec_parse_int(s, min, max) == Err::<int, IntErrorKind>(IntErrorKind::Empty),
        ({
            let d = unsigned_part(s);
            d.len() > 0 && all_digits(d) && s[0] != '-' && digits_value(d) > max
        }) ==> spec_parse_int(s, min, max) == Err::<int, IntErrorKind>(IntErrorKind::PosOverflow),
        ({
            let d = unsigned_part(s);
            d.len() > 0 && all_digits(d) && s[0] == '-' && min < 0 && -digits_value(d) < min
        }) ==> spec_parse_int(s, min, max) == Err::<int, IntErrorKind>(IntErrorKind::NegOverflow),
{
    if s.len() > 0 {
        let d = unsigned_part(s);
        if s[0] == '+' || s[0] == '-' {
            if s.len() > 1 {
                lemma_fold_drop_first(s, 0, 0, max, IntErrorKind::PosOverflow);
                lemma_fold_drop_first(s, 0, 0, -min, IntErrorKind::NegOverflow);
            }
            lemma_fold_value(d, max, IntErrorKind::PosOverflow);
            lemma_fold_value(d, -min, IntErrorKind::NegOverflow);
        } else {
            lemma_fold_value(s, max, IntErrorKind::PosOverflow);
        }
    }
}

/// Once a reading has failed, reading more characters keeps that failure.
proof fn lemma_fold_err_extends(a: Seq<char>, b: Seq<char>, limit: int, over: IntErrorKind)
    requires
        fold_digits(a, 0, 0, limit, over) is Err,
    ensures
        fold_digits(a + b, 0, 0, limit, over) == fold_digits(a, 0, 0, limit, over),
    decreases b.len(),
{
    if b.len() == 0 {
        assert(a + b =~= a);
    } else {
        let q = b.drop_last();
        lemma_fold_err_extends(a, q, limit, over);
        assert((a + q).push(b.last()) =~= a + b);
        lemma_fold_push_any(a + q, b.last(), 0, 0, limit, over);
    }
}

/// Digits that fit, then a character that is not a digit, fail with
/// `InvalidDigit`, whatever follows.
proof fn lemma_fold_stops_at_non_digit(d: Seq<char>, p: int, limit: int, over: IntErrorKind)
    requires
        0 <= limit,
        0 <= p < d.len(),
        !is_digit(d[p]),
        all_digits(d.take(p)),
        digits_value(d.take(p)) <= limit,
    ensures
        fold_digits(d, 0, 0, limit, over) == Err::<int, IntErrorKind>(IntErrorKind::InvalidDigit),
{
    let a = d.take(p);
    lemma_fold_value(a, limit, over);
    lemma_fold_push_any(a, d[p], 0, 0, limit, over);
    let b = d.skip(p + 1);
    assert(a.push(d[p]) + b =~= d);
    lemma_fold_err_extends(a.push(d[p]), b, limit, over);
}

/// A sign alone, a `-` for a type without negative values, and a character
/// that is neither a digit nor the leading sign (whitespace among them) are
/// refused with `InvalidDigit`, as long as the digits before that character
/// do not already pass the type's bound.
pub proof fn lemma_int_invalid_digit(s: Seq<char>, min: int, max: int, p: int)
    requires
        min <= 0 <= max,
    ensures
        s.len() == 1 && (s[0] == '+' || s[0] == '-') ==> spec_parse_int(s, min, max) == Err::<
            int,
            IntErrorKind,
        >(IntErrorKind::InvalidDigit),
        s.len() > 0 && s[0] == '-' && min == 0 ==> spec_parse_int(s, min, max) == Err::<
            int,
            IntErrorKind,
        >(IntErrorKind::InvalidDigit),
        ({
            let d = unsigned_part(s);
            let limit = if s[0] == '-' {
                -min
            } else {
                max
            };
            &&& 0 <= p < d.len()
            &&& !is_digit(d[p])
            &&& all_digits(d.take(p))
            &&& digits_value(d.take(p)) <= limit
        }) ==> spec_parse_int(s, min, max) == Err::<int, IntErrorKind>(IntErrorKind::InvalidDigit),
{
    let d = unsigned_part(s);
    if s.len() > 1 && (s[0] == '+' || (s[0] == '-' && min < 0)) {
        let limit = if s[0] == '-' {
            -min
        } else {
            max
        };
        let over = if s[0] == '-' {
            IntErrorKind::NegOverflow
        } else {
            IntErrorKind::PosOverflow
        };
        lemma_fold_drop_first(s, 0, 0, limit, over);
        if 0 <= p < d.len() && !is_digit(d[p]) && all_digits(d.take(p)) && digits_value(d.take(p))
            <= limit {
            lemma_fold_stops_at_non_digit(d, p, limit, over);
        }
    } else if s.len() > 1 && s[0] == '-' {
        assert(!is_digit(s[0]));
    } else if s.len() > 0 && !(s[0] == '+' || s[0] == '-') {
        if 0 <= p < d.len() && !is_digit(d[p]) && all_digits(d.take(p)) && digits_value(d.take(p))
            <= max {
            lemma_fold_stops_at_non_digit(d, p, max, IntErrorKind::PosOverflow);
        }
    }
}

} // verus!
