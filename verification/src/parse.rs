//! Conversion of an environment string into a typed value: the
//! [`FromEnvStr`] trait, its implementations for the standard types, and the
//! [`Secret`] wrapper.

use vstd::prelude::*;

use crate::error::{EnvLockError, ErrorView};
use crate::text::{chars_of, debug_text, decimal, decimal_string, str_debug, trim_bounds};
use crate::duration::{duration_of_ns, make_duration, parse_duration_ns, spec_duration_ns};
use crate::list::{first_index, lemma_first_index, list_item_strings, list_items};
use crate::number::{IntErrorKind, int_error_string, int_error_text, parse_int_parts, spec_parse_int};

verus! {

/// Trait for converting an environment string into a typed value.
///
/// Implement this, with its spec functions, for custom types to use them with
/// the `lockedenv` loaders.
/// `missing_value` says what an absent key gives: an error for most types,
/// `None` for `Option<T>`.  Make `redact_in_errors` give `true` to redact raw
/// values from error messages (useful for secrets).
///
/// The spec functions say, for every text, whether it is accepted, which
/// value it gives and the text of the failure otherwise.
pub trait FromEnvStr: Sized {
    /// Whether error messages replace the raw value with `[REDACTED]`.
    spec fn redacts() -> bool;

    /// When `true`, error messages replace the raw value with `[REDACTED]`
    /// (useful for secrets).
    fn redact_in_errors() -> (b: bool)
        ensures
            b == Self::redacts(),
    ;

    /// Whether the text `s` is accepted.
    spec fn accepts(s: Seq<char>) -> bool;

    /// Whether `v` is the value that the accepted text `s` gives.
    spec fn parsed_as(s: Seq<char>, v: Self) -> bool;

    /// The text of the failure for a text `s` that is not accepted.
    spec fn failure(s: Seq<char>) -> Seq<char>;

    /// Whether an absent key gives a value rather than an error.
    spec fn optional() -> bool;

    /// Whether `v` is the value that an absent key gives (when `optional()`).
    spec fn absent(v: Self) -> bool;

    /// Parse the raw string `s` into `Self`, or give the text of the failure.
    fn from_env_str(s: &str) -> (r: Result<Self, String>)
        ensures
            r is Ok <==> Self::accepts(s@),
            r matches Ok(v) ==> Self::parsed_as(s@, v),
            r matches Err(e) ==> e@ == Self::failure(s@),
    ;

    /// Called when the corresponding key is absent: an error naming the key,
    /// unless the type has a value for absence.
    fn missing_value(key: &str) -> (r: Result<Self, EnvLockError>)
        ensures
            Self::optional() ==> (r matches Ok(v) && Self::absent(v)),
            !Self::optional() ==> (r matches Err(e) && e@ == (ErrorView::Missing {
                variable: key@,
                hint: None,
            })),
    ;
}

impl FromEnvStr for String {
    open spec fn redacts() -> bool {
        false
    }

    fn redact_in_errors() -> (b: bool) {
        false
    }

    open spec fn accepts(s: Seq<char>) -> bool {
        true
    }

    open spec fn parsed_as(s: Seq<char>, v: Self) -> bool {
        v@ == s
    }

    open spec fn failure(s: Seq<char>) -> Seq<char> {
        Seq::empty()
    }

    open spec fn optional() -> bool {
        false
    }

    open spec fn absent(v: Self) -> bool {
        false
    }

    fn from_env_str(s: &str) -> (r: Result<Self, String>) {
        Ok(s.to_owned())
    }

    fn missing_value(key: &str) -> (r: Result<Self, EnvLockError>) {
        Err(EnvLockError::missing(key.to_owned()))
    }
}

/// Whether `s` equals the lowercase ASCII word `w` when ASCII letters are
/// compared without regard to case (as `str::eq_ignore_ascii_case` does).
pub open spec fn eq_ignore_ascii_case(s: Seq<char>, w: Seq<char>) -> bool {
    s.len() == w.len() && forall|i: int| 0 <= i < s.len() ==> ascii_lower(#[trigger] s[i]) == w[i]
}

/// The ASCII lowercase of `c`; other characters are unchanged.
pub open spec fn ascii_lower(c: char) -> char {
    if 'A' <= c <= 'Z' {
        ((c as u8) + 32) as char
    } else {
        c
    }
}

fn lower(c: char) -> (r: char)
    ensures
        r == ascii_lower(c),
{
    if 'A' <= c && c <= 'Z' {
        ((c as u8) + 32) as char
    } else {
        c
    }
}

/// Whether the characters of `s` spell the lowercase ASCII word `w`,
/// ignoring ASCII case.
fn matches_word(s: &Vec<char>, w: &str) -> (b: bool)
    ensures
        b == eq_ignore_ascii_case(s@, w@),
{
    let wc = crate::text::chars_of(w);
    if s.len() != wc.len() {
        return false;
    }
    let mut i: usize = 0;
    while i < s.len()
        invariant
            s.len() == wc.len(),
            wc@ == w@,
            0 <= i <= s.len(),
            forall|j: int| 0 <= j < i ==> ascii_lower(#[trigger] s@[j]) == w@[j],
        decreases s.len() - i,
    {
        if lower(s[i]) != wc[i] {
            return false;
        }
        i = i + 1;
    }
    true
}

/// The truth value a text names: `true`, `1`, `yes`, `false`, `0`, `no`,
/// with ASCII letters in any case.
pub open spec fn spec_bool(s: Seq<char>) -> Option<bool> {
    if eq_ignore_ascii_case(s, "true"@) || s == seq!['1'] || eq_ignore_ascii_case(s, "yes"@) {
        Some(true)
    } else if eq_ignore_ascii_case(s, "false"@) || s == seq!['0'] || eq_ignore_ascii_case(s, "no"@) {
        Some(false)
    } else {
        None
    }
}

impl FromEnvStr for bool {
    open spec fn redacts() -> bool {
        false
    }

    fn redact_in_errors() -> (b: bool) {
        false
    }

    open spec fn accepts(s: Seq<char>) -> bool {
        spec_bool(s) is Some
    }

    open spec fn parsed_as(s: Seq<char>, v: Self) -> bool {
        spec_bool(s) == Some(v)
    }

    open spec fn failure(s: Seq<char>) -> Seq<char> {
        "invalid bool: "@ + s
    }

    open spec fn optional() -> bool {
        false
    }

    open spec fn absent(v: Self) -> bool {
        false
    }

    /// Accepts `true`, `1`, `yes`, `false`, `0`, `no` (ASCII case-insensitive).
    fn from_env_str(s: &str) -> (r: Result<Self, String>) {
        let c = crate::text::chars_of(s);
        let one = c.len() == 1 && c[0] == '1';
        let zero = c.len() == 1 && c[0] == '0';
        assert(one == (s@ == seq!['1'])) by {
            if c.len() == 1 {
                assert(c@ =~= seq![c@[0]]);
            }
        }
        assert(zero == (s@ == seq!['0'])) by {
            if c.len() == 1 {
                assert(c@ =~= seq![c@[0]]);
            }
        }
        if matches_word(&c, "true") || one || matches_word(&c, "yes") {
            Ok(true)
        } else if matches_word(&c, "false") || zero || matches_word(&c, "no") {
            Ok(false)
        } else {
            let mut e = String::from_str("invalid bool: ");
            e.append(s);
            Err(e)
        }
    }

    fn missing_value(key: &str) -> (r: Result<Self, EnvLockError>) {
        Err(EnvLockError::missing(key.to_owned()))
    }
}

impl FromEnvStr for char {
    open spec fn redacts() -> bool {
        false
    }

    fn redact_in_errors() -> (b: bool) {
        false
    }

    open spec fn accepts(s: Seq<char>) -> bool {
        s.len() == 1
    }

    open spec fn parsed_as(s: Seq<char>, v: Self) -> bool {
        v == s[0]
    }

    open spec fn failure(s: Seq<char>) -> Seq<char> {
        "expected single character"@
    }

    open spec fn optional() -> bool {
        false
    }

    open spec fn absent(v: Self) -> bool {
        false
    }

    /// Accepts exactly one character.
    fn from_env_str(s: &str) -> (r: Result<Self, String>) {
        let c = crate::text::chars_of(s);
        if c.len() == 1 {
            Ok(c[0])
        } else {
            Err(String::from_str("expected single character"))
        }
    }

    fn missing_value(key: &str) -> (r: Result<Self, EnvLockError>) {
        Err(EnvLockError::missing(key.to_owned()))
    }
}

/// Whether `s` denotes an integer of the type whose values are `min ..= max`.
pub open spec fn int_accepts(s: Seq<char>, min: int, max: int) -> bool {
    spec_parse_int(s, min, max) is Ok
}

/// Whether `s` denotes the integer `v` of the type whose values are `min ..= max`.
pub open spec fn int_parses_to(s: Seq<char>, min: int, max: int, v: int) -> bool {
    spec_parse_int(s, min, max) == Ok::<int, IntErrorKind>(v)
}

/// The text of the failure when `s` denotes no integer in `min ..= max`.
pub open spec fn int_failure(s: Seq<char>, min: int, max: int) -> Seq<char> {
    match spec_parse_int(s, min, max) {
        Err(k) => int_error_text(k),
        Ok(_) => Seq::empty(),
    }
}

impl FromEnvStr for u8 {
    open spec fn redacts() -> bool {
        false
    }

    fn redact_in_errors() -> (b: bool) {
        false
    }

    open spec fn accepts(s: Seq<char>) -> bool {
        int_accepts(s, 0, u8::MAX as int)
    }

    open spec fn parsed_as(s: Seq<char>, v: Self) -> bool {
        int_parses_to(s, 0, u8::MAX as int, v as int)
    }

    open spec fn failure(s: Seq<char>) -> Seq<char> {
        int_failure(s, 0, u8::MAX as int)
    }

    open spec fn optional() -> bool {
        false
    }

    open spec fn absent(v: Self) -> bool {
        false
    }

    fn from_env_str(s: &str) -> (r: Result<Self, String>) {
        match parse_int_parts(s, 0, u8::MAX as u128) {
            Ok((_, m)) => Ok(m as u8),
            Err(k) => Err(int_error_string(k)),
        }
    }

    fn missing_value(key: &str) -> (r: Result<Self, EnvLockError>) {
        Err(EnvLockError::missing(key.to_owned()))
    }
}

impl FromEnvStr for u16 {
    open spec fn redacts() -> bool {
        false
    }

    fn redact_in_errors() -> (b: bool) {
        false
    }

    open spec fn accepts(s: Seq<char>) -> bool {
        int_accepts(s, 0, u16::MAX as int)
    }

    open spec fn parsed_as(s: Seq<char>, v: Self) -> bool {
        int_parses_to(s, 0, u16::MAX as int, v as int)
    }

    open spec fn failure(s: Seq<char>) -> Seq<char> {
        int_failure(s, 0, u16::MAX as int)
    }

    open spec fn optional() -> bool {
        false
    }

    open spec fn absent(v: Self) -> bool {
        false
    }

    fn from_env_str(s: &str) -> (r: Result<Self, String>) {
        match parse_int_parts(s, 0, u16::MAX as u128) {
            Ok((_, m)) => Ok(m as u16),
            Err(k) => Err(int_error_string(k)),
        }
    }

    fn missing_value(key: &str) -> (r: Result<Self, EnvLockError>) {
        Err(EnvLockError::missing(key.to_owned()))
    }
}

impl FromEnvStr for u32 {
    open spec fn redacts() -> bool {
        false
    }

    fn redact_in_errors() -> (b: bool) {
        false
    }

    open spec fn accepts(s: Seq<char>) -> bool {
        int_accepts(s, 0, u32::MAX as int)
    }

    open spec fn parsed_as(s: Seq<char>, v: Self) -> bool {
        int_parses_to(s, 0, u32::MAX as int, v as int)
    }

    open spec fn failure(s: Seq<char>) -> Seq<char> {
        int_failure(s, 0, u32::MAX as int)
    }

    open spec fn optional() -> bool {
        false
    }

    open spec fn absent(v: Self) -> bool {
        false
    }

    fn from_env_str(s: &str) -> (r: Result<Self, String>) {
        match parse_int_parts(s, 0, u32::MAX as u128) {
            Ok((_, m)) => Ok(m as u32),
            Err(k) => Err(int_error_string(k)),
        }
    }

    fn missing_value(key: &str) -> (r: Result<Self, EnvLockError>) {
        Err(EnvLockError::missing(key.to_owned()))
    }
}

impl FromEnvStr for u64 {
    open spec fn redacts() -> bool {
        false
    }

    fn redact_in_errors() -> (b: bool) {
        false
    }

    open spec fn accepts(s: Seq<char>) -> bool {
        int_accepts(s, 0, u64::MAX as int)
    }

    open spec fn parsed_as(s: Seq<char>, v: Self) -> bool {
        int_parses_to(s, 0, u64::MAX as int, v as int)
    }

    open spec fn failure(s: Seq<char>) -> Seq<char> {
        int_failure(s, 0, u64::MAX as int)
    }

    open spec fn optional() -> bool {
        false
    }

    open spec fn absent(v: Self) -> bool {
        false
    }

    fn from_env_str(s: &str) -> (r: Result<Self, String>) {
        match parse_int_parts(s, 0, u64::MAX as u128) {
            Ok((_, m)) => Ok(m as u64),
            Err(k) => Err(int_error_string(k)),
        }
    }

    fn missing_value(key: &str) -> (r: Result<Self, EnvLockError>) {
        Err(EnvLockError::missing(key.to_owned()))
    }
}

impl FromEnvStr for u128 {
    open spec fn redacts() -> bool {
        false
    }

    fn redact_in_errors() -> (b: bool) {
        false
    }

    open spec fn accepts(s: Seq<char>) -> bool {
        int_accepts(s, 0, u128::MAX as int)
    }

    open spec fn parsed_as(s: Seq<char>, v: Self) -> bool {
        int_parses_to(s, 0, u128::MAX as int, v as int)
    }

    open spec fn failure(s: Seq<char>) -> Seq<char> {
        int_failure(s, 0, u128::MAX as int)
    }

    open spec fn optional() -> bool {
        false
    }

    open spec fn absent(v: Self) -> bool {
        false
    }

    fn from_env_str(s: &str) -> (r: Result<Self, String>) {
        match parse_int_parts(s, 0, u128::MAX as u128) {
            Ok((_, m)) => Ok(m as u128),
            Err(k) => Err(int_error_string(k)),
        }
    }

    fn missing_value(key: &str) -> (r: Result<Self, EnvLockError>) {
        Err(EnvLockError::missing(key.to_owned()))
    }
}

impl FromEnvStr for usize {
    open spec fn redacts() -> bool {
        false
    }

    fn redact_in_errors() -> (b: bool) {
        false
    }

    open spec fn accepts(s: Seq<char>) -> bool {
        int_accepts(s, 0, usize::MAX as int)
    }

    open spec fn parsed_as(s: Seq<char>, v: Self) -> bool {
        int_parses_to(s, 0, usize::MAX as int, v as int)
    }

    open spec fn failure(s: Seq<char>) -> Seq<char> {
        int_failure(s, 0, usize::MAX as int)
    }

    open spec fn optional() -> bool {
        false
    }

    open spec fn absent(v: Self) -> bool {
        false
    }

    fn from_env_str(s: &str) -> (r: Result<Self, String>) {
        match parse_int_parts(s, 0, usize::MAX as u128) {
            Ok((_, m)) => Ok(m as usize),
            Err(k) => Err(int_error_string(k)),
        }
    }

    fn missing_value(key: &str) -> (r: Result<Self, EnvLockError>) {
        Err(EnvLockError::missing(key.to_owned()))
    }
}

impl FromEnvStr for i8 {
    open spec fn redacts() -> bool {
        false
    }

    fn redact_in_errors() -> (b: bool) {
        false
    }

    open spec fn accepts(s: Seq<char>) -> bool {
        int_accepts(s, i8::MIN as int, i8::MAX as int)
    }

    open spec fn parsed_as(s: Seq<char>, v: Self) -> bool {
        int_parses_to(s, i8::MIN as int, i8::MAX as int, v as int)
    }

    open spec fn failure(s: Seq<char>) -> Seq<char> {
        int_failure(s, i8::MIN as int, i8::MAX as int)
    }

    open spec fn optional() -> bool {
        false
    }

    open spec fn absent(v: Self) -> bool {
        false
    }

    fn from_env_str(s: &str) -> (r: Result<Self, String>) {
        match parse_int_parts(s, (i8::MAX as u128) + 1, i8::MAX as u128) {
            Ok((neg, m)) => {
                let v: i128 = if neg {
                    0 - (m as i128)
                } else {
                    m as i128
                };
                Ok(v as i8)
            },
            Err(k) => Err(int_error_string(k)),
        }
    }

    fn missing_value(key: &str) -> (r: Result<Self, EnvLockError>) {
        Err(EnvLockError::missing(key.to_owned()))
    }
}

impl FromEnvStr for i16 {
    open spec fn redacts() -> bool {
        false
    }

    fn redact_in_errors() -> (b: bool) {
        false
    }

    open spec fn accepts(s: Seq<char>) -> bool {
        int_accepts(s, i16::MIN as int, i16::MAX as int)
    }

    open spec fn parsed_as(s: Seq<char>, v: Self) -> bool {
        int_parses_to(s, i16::MIN as int, i16::MAX as int, v as int)
    }

    open spec fn failure(s: Seq<char>) -> Seq<char> {
        int_failure(s, i16::MIN as int, i16::MAX as int)
    }

    open spec fn optional() -> bool {
        false
    }

    open spec fn absent(v: Self) -> bool {
        false
    }

    fn from_env_str(s: &str) -> (r: Result<Self, String>) {
        match parse_int_parts(s, (i16::MAX as u128) + 1, i16::MAX as u128) {
            Ok((neg, m)) => {
                let v: i128 = if neg {
                    0 - (m as i128)
                } else {
                    m as i128
                };
                Ok(v as i16)
            },
            Err(k) => Err(int_error_string(k)),
        }
    }

    fn missing_value(key: &str) -> (r: Result<Self, EnvLockError>) {
        Err(EnvLockError::missing(key.to_owned()))
    }
}

impl FromEnvStr for i32 {
    open spec fn redacts() -> bool {
        false
    }

    fn redact_in_errors() -> (b: bool) {
        false
    }

    open spec fn accepts(s: Seq<char>) -> bool {
        int_accepts(s, i32::MIN as int, i32::MAX as int)
    }

    open spec fn parsed_as(s: Seq<char>, v: Self) -> bool {
        int_parses_to(s, i32::MIN as int, i32::MAX as int, v as int)
    }

    open spec fn failure(s: Seq<char>) -> Seq<char> {
        int_failure(s, i32::MIN as int, i32::MAX as int)
    }

    open spec fn optional() -> bool {
        false
    }

    open spec fn absent(v: Self) -> bool {
        false
    }

    fn from_env_str(s: &str) -> (r: Result<Self, String>) {
        match parse_int_parts(s, (i32::MAX as u128) + 1, i32::MAX as u128) {
            Ok((neg, m)) => {
                let v: i128 = if neg {
                    0 - (m as i128)
                } else {
                    m as i128
                };
                Ok(v as i32)
            },
            Err(k) => Err(int_error_string(k)),
        }
    }

    fn missing_value(key: &str) -> (r: Result<Self, EnvLockError>) {
        Err(EnvLockError::missing(key.to_owned()))
    }
}

impl FromEnvStr for i64 {
    open spec fn redacts() -> bool {
        false
    }

    fn redact_in_errors() -> (b: bool) {
        false
    }

    open spec fn accepts(s: Seq<char>) -> bool {
        int_accepts(s, i64::MIN as int, i64::MAX as int)
    }

    open spec fn parsed_as(s: Seq<char>, v: Self) -> bool {
        int_parses_to(s, i64::MIN as int, i64::MAX as int, v as int)
    }

    open spec fn failure(s: Seq<char>) -> Seq<char> {
        int_failure(s, i64::MIN as int, i64::MAX as int)
    }

    open spec fn optional() -> bool {
        false
    }

    open spec fn absent(v: Self) -> bool {
        false
    }

    fn from_env_str(s: &str) -> (r: Result<Self, String>) {
        match parse_int_parts(s, (i64::MAX as u128) + 1, i64::MAX as u128) {
            Ok((neg, m)) => {
                let v: i128 = if neg {
                    0 - (m as i128)
                } else {
                    m as i128
                };
                Ok(v as i64)
            },
            Err(k) => Err(int_error_string(k)),
        }
    }

    fn missing_value(key: &str) -> (r: Result<Self, EnvLockError>) {
        Err(EnvLockError::missing(key.to_owned()))
    }
}

impl FromEnvStr for i128 {
    open spec fn redacts() -> bool {
        false
    }

    fn redact_in_errors() -> (b: bool) {
        false
    }

    open spec fn accepts(s: Seq<char>) -> bool {
        int_accepts(s, i128::MIN as int, i128::MAX as int)
    }

    open spec fn parsed_as(s: Seq<char>, v: Self) -> bool {
        int_parses_to(s, i128::MIN as int, i128::MAX as int, v as int)
    }

    open spec fn failure(s: Seq<char>) -> Seq<char> {
        int_failure(s, i128::MIN as int, i128::MAX as int)
    }

    open spec fn optional() -> bool {
        false
    }

    open spec fn absent(v: Self) -> bool {
        false
    }

    fn from_env_str(s: &str) -> (r: Result<Self, String>) {
        match parse_int_parts(s, (i128::MAX as u128) + 1, i128::MAX as u128) {
            Ok((neg, m)) => {
                if !neg {
                    Ok(m as i128)
                } else if m == 0x8000_0000_0000_0000_0000_0000_0000_0000u128 {
                    Ok(i128::MIN)
                } else {
                    Ok(0 - (m as i128))
                }
            },
            Err(k) => Err(int_error_string(k)),
        }
    }

    fn missing_value(key: &str) -> (r: Result<Self, EnvLockError>) {
        Err(EnvLockError::missing(key.to_owned()))
    }
}

impl FromEnvStr for isize {
    open spec fn redacts() -> bool {
        false
    }

    fn redact_in_errors() -> (b: bool) {
        false
    }

    open spec fn accepts(s: Seq<char>) -> bool {
        int_accepts(s, isize::MIN as int, isize::MAX as int)
    }

    open spec fn parsed_as(s: Seq<char>, v: Self) -> bool {
        int_parses_to(s, isize::MIN as int, isize::MAX as int, v as int)
    }

    open spec fn failure(s: Seq<char>) -> Seq<char> {
        int_failure(s, isize::MIN as int, isize::MAX as int)
    }

    open spec fn optional() -> bool {
        false
    }

    open spec fn absent(v: Self) -> bool {
        false
    }

    fn from_env_str(s: &str) -> (r: Result<Self, String>) {
        match parse_int_parts(s, (isize::MAX as u128) + 1, isize::MAX as u128) {
            Ok((neg, m)) => {
                let v: i128 = if neg {
                    0 - (m as i128)
                } else {
                    m as i128
                };
                Ok(v as isize)
            },
            Err(k) => Err(int_error_string(k)),
        }
    }

    fn missing_value(key: &str) -> (r: Result<Self, EnvLockError>) {
        Err(EnvLockError::missing(key.to_owned()))
    }
}

impl<T: FromEnvStr> FromEnvStr for Option<T> {
    /// Propagated from `T` so that `Option<Secret<String>>` still redacts.
    open spec fn redacts() -> bool {
        T::redacts()
    }

    fn redact_in_errors() -> (b: bool) {
        T::redact_in_errors()
    }

    open spec fn accepts(s: Seq<char>) -> bool {
        s.len() == 0 || T::accepts(s)
    }

    open spec fn parsed_as(s: Seq<char>, v: Self) -> bool {
        if s.len() == 0 {
            v is None
        } else {
            v matches Some(x) && T::parsed_as(s, x)
        }
    }

    open spec fn failure(s: Seq<char>) -> Seq<char> {
        T::failure(s)
    }

    open spec fn optional() -> bool {
        true
    }

    open spec fn absent(v: Self) -> bool {
        v is None
    }

    /// An empty text is `None`; any other text is parsed as a `T`.
    fn from_env_str(s: &str) -> (r: Result<Self, String>) {
        if s.is_empty() {
            Ok(None)
        } else {
            match T::from_env_str(s) {
                Ok(v) => Ok(Some(v)),
                Err(e) => Err(e),
            }
        }
    }

    /// An absent `Option` field is `None`, not an error.
    fn missing_value(key: &str) -> (r: Result<Self, EnvLockError>) {
        Ok(None)
    }
}

/// A wrapper for sensitive environment variables.
///
/// Errors about a `Secret` value never carry the raw text
/// ([`redact_in_errors`](FromEnvStr::redact_in_errors) is `true`), and
/// `Secret<String>` can be wiped in place with [`Secret::zeroize`].
#[derive(PartialEq, Eq)]
pub struct Secret<T>(T);

impl<T: Clone> Clone for Secret<T> {
    /// A separate secret holding a clone of the value.
    fn clone(&self) -> (r: Self)
        ensures
            vstd::pervasive::cloned::<T>(self.exposed(), r.exposed()),
    {
        Secret(self.0.clone())
    }
}

impl<T> Secret<T> {
    /// The value held.
    pub closed spec fn exposed(self) -> T {
        self.0
    }

    /// Create a new `Secret` wrapping the given value.
    pub fn new(val: T) -> (r: Self)
        ensures
            r.exposed() == val,
    {
        Secret(val)
    }

    /// Consume the wrapper and return the inner value.
    #[must_use]
    pub fn into_inner(self) -> (r: T)
        ensures
            r == self.exposed(),
    {
        self.0
    }

    /// A reference to the inner value.
    pub fn as_ref(&self) -> (r: &T)
        ensures
            *r == self.exposed(),
    {
        &self.0
    }
}

/// Zeroes the bytes of a string and empties it (zeroize's `Zeroize::zeroize`
/// for `String`, which zeroes the contents and clears the string).
#[verifier::external_body]
fn wipe_string(s: &mut String)
    ensures
        final(s)@ == Seq::<char>::empty(),
{
    zeroize::Zeroize::zeroize(s)
}

impl Secret<String> {
    /// Zero the secret text in place; the secret is empty afterwards.
    pub fn zeroize(&mut self)
        ensures
            final(self).exposed()@ == Seq::<char>::empty(),
    {
        wipe_string(&mut self.0)
    }

    /// A clone of a secret text holds the same text as the original it was
    /// made from.
    pub proof fn lemma_clone_holds_same_text(original: Self, copy: Self)
        requires
            vstd::pervasive::cloned::<String>(original.exposed(), copy.exposed()),
        ensures
            copy.exposed()@ == original.exposed()@,
    {
    }
}

impl<T> std::ops::Deref for Secret<T> {
    type Target = T;

    fn deref(&self) -> (r: &T)
        ensures
            *r == self.exposed(),
    {
        &self.0
    }
}

impl<T> From<T> for Secret<T> {
    fn from(val: T) -> (r: Self) {
        Secret(val)
    }
}

impl<T> vstd::std_specs::convert::FromSpecImpl<T> for Secret<T> {
    open spec fn obeys_from_spec() -> bool {
        true
    }

    open spec fn from_spec(v: T) -> Self {
        Secret::<T>::spec_new(v)
    }
}

impl<T> Secret<T> {
    /// The secret holding `v`.
    pub closed spec fn spec_new(v: T) -> Self {
        Secret(v)
    }

    /// A secret is determined by the value it holds: `Secret::new(v)` and
    /// `Secret::from(v)` (and `v.into()`) give the same secret.
    pub proof fn lemma_same_value_same_secret(a: Self, v: T)
        requires
            a.exposed() == v,
        ensures
            a == Self::spec_new(v),
            Self::spec_new(v).exposed() == v,
    {
    }
}

impl<T: FromEnvStr> FromEnvStr for Secret<T> {
    open spec fn redacts() -> bool {
        true
    }

    fn redact_in_errors() -> (b: bool) {
        true
    }

    open spec fn accepts(s: Seq<char>) -> bool {
        T::accepts(s)
    }

    open spec fn parsed_as(s: Seq<char>, v: Self) -> bool {
        T::parsed_as(s, v.exposed())
    }

    open spec fn failure(s: Seq<char>) -> Seq<char> {
        T::failure(s)
    }

    open spec fn optional() -> bool {
        T::optional()
    }

    open spec fn absent(v: Self) -> bool {
        T::absent(v.exposed())
    }

    fn from_env_str(s: &str) -> (r: Result<Self, String>) {
        match T::from_env_str(s) {
            Ok(v) => Ok(Secret::new(v)),
            Err(e) => Err(e),
        }
    }

    fn missing_value(key: &str) -> (r: Result<Self, EnvLockError>) {
        match T::missing_value(key) {
            Ok(v) => Ok(Secret::new(v)),
            Err(e) => Err(e),
        }
    }
}

/// The text of the failure of list item number `k` (counting from zero),
/// whose text is `item`; the item's text is left out for redacted types.
pub open spec fn item_failure<T: FromEnvStr>(k: int, item: Seq<char>) -> Seq<char> {
    if T::redacts() {
        "item["@ + decimal(k as nat) + "]: "@ + T::failure(item)
    } else {
        "item["@ + decimal(k as nat) + "] "@ + str_debug(item) + ": "@ + T::failure(item)
    }
}

/// The texts that `T` does not accept.
pub open spec fn rejected_by<T: FromEnvStr>() -> spec_fn(Seq<char>) -> bool {
    |x: Seq<char>| !T::accepts(x)
}

impl<T: FromEnvStr> FromEnvStr for Vec<T> {
    /// Propagated from `T` so that `Vec<Secret<String>>` still redacts.
    open spec fn redacts() -> bool {
        T::redacts()
    }

    fn redact_in_errors() -> (b: bool) {
        T::redact_in_errors()
    }

    open spec fn accepts(s: Seq<char>) -> bool {
        forall|j: int| 0 <= j < list_items(s).len() ==> T::accepts(#[trigger] list_items(s)[j])
    }

    open spec fn parsed_as(s: Seq<char>, v: Self) -> bool {
        &&& v@.len() == list_items(s).len()
        &&& forall|j: int| 0 <= j < v@.len() ==> T::parsed_as(list_items(s)[j], #[trigger] v@[j])
    }

    open spec fn failure(s: Seq<char>) -> Seq<char> {
        let items = list_items(s);
        let k = first_index(items, 0, rejected_by::<T>());
        item_failure::<T>(k, items[k])
    }

    open spec fn optional() -> bool {
        false
    }

    open spec fn absent(v: Self) -> bool {
        false
    }

    /// Comma-separated items, each trimmed; empty items are skipped and the
    /// first item that does not parse fails the whole list.
    fn from_env_str(s: &str) -> (r: Result<Self, String>) {
        let chars = chars_of(s);
        let (lo, hi) = trim_bounds(&chars, 0, chars.len());
        assert(chars@.subrange(0, chars.len() as int) =~= chars@);
        if lo == hi {
            assert(list_items(s@) =~= Seq::<Seq<char>>::empty());
            return Ok(Vec::new());
        }
        let items = list_item_strings(&chars);
        let ghost want = list_items(s@);
        assert(items.deep_view() == want);
        let mut out: Vec<T> = Vec::new();
        let mut k: usize = 0;
        while k < items.len()
            invariant
                0 <= k <= items.len(),
                items.deep_view() == want,
                want == list_items(s@),
                out@.len() == k,
                forall|j: int| 0 <= j < k ==> T::accepts(#[trigger] want[j]),
                forall|j: int| 0 <= j < k ==> T::parsed_as(want[j], #[trigger] out@[j]),
            decreases items.len() - k,
        {
            assert(items@[k as int]@ == want[k as int]);
            match T::from_env_str(items[k].as_str()) {
                Ok(v) => {
                    out.push(v);
                },
                Err(e) => {
                    proof {
                        lemma_first_index(want, 0, k as int, rejected_by::<T>());
                    }
                    let mut msg = String::from_str("item[");
                    let n = decimal_string(k);
                    msg.append(n.as_str());
                    if T::redact_in_errors() {
                        msg.append("]: ");
                    } else {
                        msg.append("] ");
                        let d = debug_text(items[k].as_str());
                        msg.append(d.as_str());
                        msg.append(": ");
                    }
                    msg.append(e.as_str());
                    return Err(msg);
                },
            }
            k = k + 1;
        }
        Ok(out)
    }

    fn missing_value(key: &str) -> (r: Result<Self, EnvLockError>) {
        Err(EnvLockError::missing(key.to_owned()))
    }
}

impl FromEnvStr for std::time::Duration {
    open spec fn redacts() -> bool {
        false
    }

    fn redact_in_errors() -> (b: bool) {
        false
    }

    open spec fn accepts(s: Seq<char>) -> bool {
        spec_duration_ns(s) is Ok
    }

    open spec fn parsed_as(s: Seq<char>, v: Self) -> bool {
        spec_duration_ns(s) matches Ok(ns) && v == duration_of_ns(ns)
    }

    open spec fn failure(s: Seq<char>) -> Seq<char> {
        match spec_duration_ns(s) {
            Err(m) => m,
            Ok(_) => Seq::empty(),
        }
    }

    open spec fn optional() -> bool {
        false
    }

    open spec fn absent(v: Self) -> bool {
        false
    }

    /// Segments such as `"30s"`, `"1h30m45s"`, `"500ms"` or `"1.5h"`; the
    /// units are `h`, `m`, `s` and `ms`, and repeated units add up.
    fn from_env_str(s: &str) -> (r: Result<Self, String>) {
        match parse_duration_ns(s) {
            Ok(ns) => Ok(make_duration((ns / 1_000_000_000) as u64, (ns % 1_000_000_000) as u32)),
            Err(e) => Err(e),
        }
    }

    fn missing_value(key: &str) -> (r: Result<Self, EnvLockError>) {
        Err(EnvLockError::missing(key.to_owned()))
    }
}

/// std's `PathBuf`, carried as an opaque value.
#[verifier::external_type_specification]
#[verifier::external_body]
pub struct ExPathBuf(std::path::PathBuf);

/// The path that std's `PathBuf::from` makes of the text `s`.
pub uninterp spec fn path_from(s: Seq<char>) -> std::path::PathBuf;

/// std's `PathBuf::from` on a string slice.
#[verifier::external_body]
fn make_path(s: &str) -> (p: std::path::PathBuf)
    ensures
        p == path_from(s@),
{
    std::path::PathBuf::from(s)
}

impl FromEnvStr for std::path::PathBuf {
    open spec fn redacts() -> bool {
        false
    }

    fn redact_in_errors() -> (b: bool) {
        false
    }

    open spec fn accepts(s: Seq<char>) -> bool {
        true
    }

    open spec fn parsed_as(s: Seq<char>, v: Self) -> bool {
        v == path_from(s)
    }

    open spec fn failure(s: Seq<char>) -> Seq<char> {
        Seq::empty()
    }

    open spec fn optional() -> bool {
        false
    }

    open spec fn absent(v: Self) -> bool {
        false
    }

    /// Any text is a path; whether it exists is not checked.
    fn from_env_str(s: &str) -> (r: Result<Self, String>) {
        Ok(make_path(s))
    }

    fn missing_value(key: &str) -> (r: Result<Self, EnvLockError>) {
        Err(EnvLockError::missing(key.to_owned()))
    }
}

/// The url crate's `Url`, carried as an opaque value.
#[verifier::external_type_specification]
#[verifier::external_body]
pub struct ExUrl(url::Url);

/// What the url crate's `Url::parse` gives for the text `s`: the URL, or the
/// text (`Display`) of its parse error.
pub uninterp spec fn url_parse(s: Seq<char>) -> Result<url::Url, Seq<char>>;

/// The url crate's `Url::parse`, with its error turned into its text.
#[verifier::external_body]
fn parse_url(s: &str) -> (r: Result<url::Url, String>)
    ensures
        match (r, url_parse(s@)) {
            (Ok(a), Ok(b)) => a == b,
            (Err(a), Err(b)) => a@ == b,
            _ => false,
        },
{
    match url::Url::parse(s) {
        Ok(u) => Ok(u),
        Err(e) => Err(e.to_string()),
    }
}

impl FromEnvStr for url::Url {
    open spec fn redacts() -> bool {
        false
    }

    fn redact_in_errors() -> (b: bool) {
        false
    }

    open spec fn accepts(s: Seq<char>) -> bool {
        url_parse(s) is Ok
    }

    open spec fn parsed_as(s: Seq<char>, v: Self) -> bool {
        url_parse(s) == Ok::<url::Url, Seq<char>>(v)
    }

    open spec fn failure(s: Seq<char>) -> Seq<char> {
        match url_parse(s) {
            Err(m) => m,
            Ok(_) => Seq::empty(),
        }
    }

    open spec fn optional() -> bool {
        false
    }

    open spec fn absent(v: Self) -> bool {
        false
    }

    /// An absolute URL, as the url crate parses it.
    fn from_env_str(s: &str) -> (r: Result<Self, String>) {
        parse_url(s)
    }

    fn missing_value(key: &str) -> (r: Result<Self, EnvLockError>) {
        Err(EnvLockError::missing(key.to_owned()))
    }
}

/// `Secret` redacts, and wrapping a secret in `Option` or `Vec` keeps it
/// redacted.
pub proof fn lemma_redaction_propagates<T: FromEnvStr>()
    ensures
        <Secret<T> as FromEnvStr>::redacts(),
        <Option<Secret<T>> as FromEnvStr>::redacts(),
        <Vec<Secret<T>> as FromEnvStr>::redacts(),
        <Option<T> as FromEnvStr>::redacts() == T::redacts(),
        <Vec<T> as FromEnvStr>::redacts() == T::redacts(),
{
}

/// For `Option<T>` both an absent key and an empty text give `None`, and a
/// non-empty text is parsed as a `T`.
pub proof fn lemma_option_absent_or_empty_is_none<T: FromEnvStr>(s: Seq<char>, v: Option<T>)
    ensures
        <Option<T> as FromEnvStr>::optional(),
        <Option<T> as FromEnvStr>::absent(v) <==> v is None,
        s.len() == 0 ==> <Option<T> as FromEnvStr>::accepts(s),
        s.len() == 0 ==> (<Option<T> as FromEnvStr>::parsed_as(s, v) <==> v is None),
        s.len() > 0 ==> (<Option<T> as FromEnvStr>::accepts(s) <==> T::accepts(s)),
{
}

/// A `Secret` parses, fails and treats absence exactly as the type it
/// wraps does, holding the value that type gives.
pub proof fn lemma_secret_parses_as_inner<T: FromEnvStr>(s: Seq<char>, v: Secret<T>)
    ensures
        <Secret<T> as FromEnvStr>::accepts(s) == T::accepts(s),
        <Secret<T> as FromEnvStr>::parsed_as(s, v) == T::parsed_as(s, v.exposed()),
        <Secret<T> as FromEnvStr>::failure(s) == T::failure(s),
        <Secret<T> as FromEnvStr>::optional() == T::optional(),
{
}

/// Whether `c` is an ASCII letter or digit.
pub open spec fn is_ascii_alphanumeric(c: char) -> bool {
    ('a' <= c <= 'z') || ('A' <= c <= 'Z') || ('0' <= c <= '9')
}

proof fn lemma_word_letters(s: Seq<char>, w: Seq<char>)
    requires
        eq_ignore_ascii_case(s, w),
        forall|i: int| 0 <= i < w.len() ==> 'a' <= #[trigger] w[i] <= 'z',
    ensures
        forall|i: int| 0 <= i < s.len() ==> is_ascii_alphanumeric(#[trigger] s[i]),
{
    assert forall|i: int| 0 <= i < s.len() implies is_ascii_alphanumeric(#[trigger] s[i]) by {
        assert(ascii_lower(s[i]) == w[i]);
    }
}

/// A text accepted as a truth value is one of the six words themselves: one
/// to five ASCII letters or digits, with no whitespace or anything else
/// around them.
pub proof fn lemma_bool_text_is_bare_word(s: Seq<char>)
    ensures
        spec_bool(s) is Some ==> 1 <= s.len() <= 5 && forall|i: int|
            0 <= i < s.len() ==> is_ascii_alphanumeric(#[trigger] s[i]),
{
    reveal_strlit("true");
    reveal_strlit("yes");
    reveal_strlit("false");
    reveal_strlit("no");
    if eq_ignore_ascii_case(s, "true"@) {
        lemma_word_letters(s, "true"@);
    }
    if eq_ignore_ascii_case(s, "yes"@) {
        lemma_word_letters(s, "yes"@);
    }
    if eq_ignore_ascii_case(s, "false"@) {
        lemma_word_letters(s, "false"@);
    }
    if eq_ignore_ascii_case(s, "no"@) {
        lemma_word_letters(s, "no"@);
    }
}

/// Two texts that differ only in the case of ASCII letters.
pub open spec fn same_ignoring_ascii_case(s: Seq<char>, t: Seq<char>) -> bool {
    s.len() == t.len() && forall|i: int| 0 <= i < s.len() ==> ascii_lower(#[trigger] s[i]) == ascii_lower(t[i])
}

proof fn lemma_lower_digit(c: char, d: char)
    requires
        ascii_lower(c) == ascii_lower(d),
        d == '0' || d == '1',
    ensures
        c == d,
{
    if 'A' <= c <= 'Z' {
        assert(((c as u8) + 32) as char == ascii_lower(c));
        assert('a' <= ascii_lower(c) <= 'z');
    }
}

/// Truth values are read without regard to the case of ASCII letters: two
/// texts that differ only in that case name the same truth value (or none).
pub proof fn lemma_bool_ignores_ascii_case(s: Seq<char>, t: Seq<char>)
    requires
        same_ignoring_ascii_case(s, t),
    ensures
        spec_bool(s) == spec_bool(t),
{
    assert forall|w: Seq<char>| eq_ignore_ascii_case(s, w) == eq_ignore_ascii_case(t, w) by {
        if eq_ignore_ascii_case(s, w) {
            assert forall|i: int| 0 <= i < t.len() implies ascii_lower(#[trigger] t[i]) == w[i] by {
                assert(ascii_lower(s[i]) == ascii_lower(t[i]));
            }
        }
        if eq_ignore_ascii_case(t, w) {
            assert forall|i: int| 0 <= i < s.len() implies ascii_lower(#[trigger] s[i]) == w[i] by {
                assert(ascii_lower(s[i]) == ascii_lower(t[i]));
            }
        }
    }
    if s.len() == 1 {
        assert(ascii_lower(s[0]) == ascii_lower(t[0]));
        if s == seq!['1'] {
            lemma_lower_digit(t[0], '1');
            assert(t =~= seq!['1']);
        }
        if t == seq!['1'] {
            lemma_lower_digit(s[0], '1');
            assert(s =~= seq!['1']);
        }
        if s == seq!['0'] {
            lemma_lower_digit(t[0], '0');
            assert(t =~= seq!['0']);
        }
        if t == seq!['0'] {
            lemma_lower_digit(s[0], '0');
            assert(s =~= seq!['0']);
        }
    }
}

} // verus!
