//! Resolution of one configuration field: the raw value found for its key
//! (in the process environment or in a map) is parsed into the field's type,
//! an absent key falls back to the field's default or to the type's value
//! for absence, and every failure becomes an [`EnvLockError`] naming the key.

use std::collections::HashMap;

use vstd::prelude::*;

use crate::error::{EnvLockError, ErrorView};
use crate::parse::FromEnvStr;

verus! {

/// What reading a variable from the process environment gave.
pub enum EnvRead {
    /// The variable is set, to this text.
    Present(String),
    /// The variable is not set.
    NotPresent,
    /// The variable is set to bytes that are not UTF-8.
    NotUnicode,
}

/// The value shown in a parse error: the raw text, or `[REDACTED]` for a
/// type that redacts its values.
pub open spec fn shown_value<T: FromEnvStr>(val: Seq<char>) -> Seq<char> {
    if T::redacts() {
        "[REDACTED]"@
    } else {
        val
    }
}

/// `r` is what parsing the text `val` found for `key` gives: the parsed value,
/// or a parse error naming the key, showing the (possibly redacted) value and
/// carrying the type's failure text.
pub open spec fn parse_outcome<T: FromEnvStr>(
    key: Seq<char>,
    val: Seq<char>,
    r: Result<T, EnvLockError>,
) -> bool {
    if T::accepts(val) {
        r matches Ok(v) && T::parsed_as(val, v)
    } else {
        r matches Err(e) && e@ == (ErrorView::Parse {
            variable: key,
            found: shown_value::<T>(val),
            expected: T::failure(val),
            hint: None,
        })
    }
}

/// `r` is what an absent `key` gives when the field has no default: the
/// type's value for absence, or a `Missing` error naming the key.
pub open spec fn absent_outcome<T: FromEnvStr>(key: Seq<char>, r: Result<T, EnvLockError>) -> bool {
    if T::optional() {
        r matches Ok(v) && T::absent(v)
    } else {
        r matches Err(e) && e@ == (ErrorView::Missing { variable: key, hint: None })
    }
}

/// `r` is the value of the field whose key is `key`, given the text `found`
/// for it (if any) and the field's `default` (if any): a text is parsed, and
/// an absent key gives the default, else what `absent_outcome` says.
pub open spec fn field_outcome<T: FromEnvStr>(
    key: Seq<char>,
    found: Option<Seq<char>>,
    default: Option<T>,
    r: Result<T, EnvLockError>,
) -> bool {
    match found {
        Some(val) => parse_outcome(key, val, r),
        None => match default {
            Some(d) => r == Ok::<T, EnvLockError>(d),
            None => absent_outcome(key, r),
        },
    }
}

/// The error for a variable whose value is not UTF-8.
pub open spec fn non_unicode_error(key: Seq<char>) -> ErrorView {
    ErrorView::Parse {
        variable: key,
        found: "<non-unicode>"@,
        expected: "value contains non-UTF-8 bytes"@,
        hint: None,
    }
}

/// `r` is the value of the field `key` read from the environment as `read`.
pub open spec fn env_outcome<T: FromEnvStr>(
    key: Seq<char>,
    read: EnvRead,
    default: Option<T>,
    r: Result<T, EnvLockError>,
) -> bool {
    match read {
        EnvRead::Present(v) => field_outcome(key, Some(v@), default, r),
        EnvRead::NotPresent => field_outcome(key, None, default, r),
        EnvRead::NotUnicode => r matches Err(e) && e@ == non_unicode_error(key),
    }
}

/// The text a read of the environment found, or the error for a value that
/// is not UTF-8.
fn read_raw<'a>(key: &str, read: &'a EnvRead) -> (r: Result<Option<&'a str>, EnvLockError>)
    ensures
        match read {
            EnvRead::Present(v) => r matches Ok(Some(s)) && s@ == v@,
            EnvRead::NotPresent => r matches Ok(None),
            EnvRead::NotUnicode => r matches Err(e) && e@ == non_unicode_error(key@),
        },
{
    match read {
        EnvRead::Present(val) => Ok(Some(val.as_str())),
        EnvRead::NotPresent => Ok(None),
        EnvRead::NotUnicode => Err(
            EnvLockError::parse_failure(
                key.to_owned(),
                String::from_str("<non-unicode>"),
                String::from_str("value contains non-UTF-8 bytes"),
            ),
        ),
    }
}

/// Parse the text `val` found for `key` into `T`; a failure becomes a parse
/// error naming the key, whose shown value is redacted for redacting types.
pub fn parse_val<T: FromEnvStr>(key: &str, val: &str) -> (r: Result<T, EnvLockError>)
    ensures
        parse_outcome(key@, val@, r),
{
    match T::from_env_str(val) {
        Ok(v) => Ok(v),
        Err(e) => {
            let found = if T::redact_in_errors() {
                String::from_str("[REDACTED]")
            } else {
                val.to_owned()
            };
            Err(EnvLockError::parse_failure(key.to_owned(), found, e))
        },
    }
}

/// Read a required value from what a read of the environment gave; absence
/// is handled via `T::missing_value`.
pub fn __read_required<T: FromEnvStr>(key: &str, read: &EnvRead) -> (r: Result<T, EnvLockError>)
    ensures
        env_outcome(key@, *read, None, r),
{
    match read_raw(key, read) {
        Err(e) => Err(e),
        Ok(None) => T::missing_value(key),
        Ok(Some(val)) => parse_val(key, val),
    }
}

/// Parse what a read of the environment gave, or return the provided default
/// when the variable is not set.
pub fn __read_default<T: FromEnvStr>(key: &str, default: T, read: &EnvRead) -> (r: Result<
    T,
    EnvLockError,
>)
    ensures
        env_outcome(key@, *read, Some(default), r),
{
    match read_raw(key, read) {
        Err(e) => Err(e),
        Ok(None) => Ok(default),
        Ok(Some(val)) => parse_val(key, val),
    }
}

/// Helper forwarding to `T::missing_value`.
pub fn __missing_value<T: FromEnvStr>(key: &str) -> (r: Result<T, EnvLockError>)
    ensures
        absent_outcome(key@, r),
{
    T::missing_value(key)
}

/// The text that the map `m` holds for `key`, if any.
pub open spec fn map_lookup(m: Map<Seq<char>, Seq<char>>, key: Seq<char>) -> Option<Seq<char>> {
    if m.contains_key(key) {
        Some(m[key])
    } else {
        None
    }
}

/// std's `HashMap::get` on a map of strings, looked up by the text of `key`:
/// the value stored under the key equal to `key`, if there is one.
#[verifier::external_body]
fn map_get<'a>(map: &'a HashMap<String, String>, key: &str) -> (r: Option<&'a String>)
    ensures
        match r {
            Some(v) => map_lookup(map.deep_view(), key@) == Some(v@),
            None => map_lookup(map.deep_view(), key@) is None,
        },
{
    map.get(key)
}

/// The key of the field `name` under the common `prefix`.
pub fn full_key(prefix: &str, name: &str) -> (r: String)
    ensures
        r@ == prefix@ + name@,
{
    let mut k = String::from_str(prefix);
    k.append(name);
    k
}

/// The value of the field `name` (key `prefix` + `name`) in `map`, with no
/// default: parsed when the key is there, else the type's value for absence
/// or a `Missing` error.
pub fn map_field<T: FromEnvStr>(map: &HashMap<String, String>, prefix: &str, name: &str) -> (r:
    Result<T, EnvLockError>)
    ensures
        field_outcome(
            prefix@ + name@,
            map_lookup(map.deep_view(), prefix@ + name@),
            None,
            r,
        ),
{
    let key = full_key(prefix, name);
    match map_get(map, key.as_str()) {
        Some(val) => parse_val(key.as_str(), val.as_str()),
        None => T::missing_value(key.as_str()),
    }
}

/// The value of the field `name` (key `prefix` + `name`) in `map`, or
/// `default` when the key is absent.
pub fn map_field_or<T: FromEnvStr>(
    map: &HashMap<String, String>,
    prefix: &str,
    name: &str,
    default: T,
) -> (r: Result<T, EnvLockError>)
    ensures
        field_outcome(
            prefix@ + name@,
            map_lookup(map.deep_view(), prefix@ + name@),
            Some(default),
            r,
        ),
{
    let key = full_key(prefix, name);
    match map_get(map, key.as_str()) {
        Some(val) => parse_val(key.as_str(), val.as_str()),
        None => Ok(default),
    }
}

/// A parse error for a redacting type never carries the raw text: the
/// value it shows is `[REDACTED]`.
pub proof fn lemma_redacted_value_hidden<T: FromEnvStr>(
    key: Seq<char>,
    val: Seq<char>,
    r: Result<T, EnvLockError>,
)
    requires
        T::redacts(),
        parse_outcome(key, val, r),
        r is Err,
    ensures
        r->Err_0@ matches ErrorView::Parse { found, .. } && found == "[REDACTED]"@,
{
}

/// A value that is present overrides the default: the outcome of a field
/// whose key has a text does not depend on the default, if any.
pub proof fn lemma_present_value_overrides_default<T: FromEnvStr>(
    key: Seq<char>,
    val: Seq<char>,
    d: T,
    r: Result<T, EnvLockError>,
)
    ensures
        field_outcome(key, Some(val), Some(d), r) == field_outcome(key, Some(val), None, r),
        field_outcome(key, Some(val), Some(d), r) == parse_outcome(key, val, r),
{
}

/// An absent key gives the default when the field has one, whatever the type.
pub proof fn lemma_absent_key_gives_default<T: FromEnvStr>(
    key: Seq<char>,
    d: T,
    r: Result<T, EnvLockError>,
)
    ensures
        field_outcome(key, None, Some(d), r) <==> r == Ok::<T, EnvLockError>(d),
{
}

/// A key that the map holds is found with the text stored under it, whatever
/// that text is (the empty text included), and a key it does not hold is not
/// found.
pub proof fn lemma_map_lookup_finds_stored_text(m: Map<Seq<char>, Seq<char>>, key: Seq<char>)
    ensures
        m.contains_key(key) ==> map_lookup(m, key) == Some(m[key]),
        !m.contains_key(key) ==> map_lookup(m, key) is None,
{
}

/// A field whose key the map holds is the parse of the text stored under
/// that key, whatever the text (the empty text included) and whatever the
/// default; a field whose key the map does not hold is its default, or what
/// an absent key gives.
pub proof fn lemma_map_field_reads_stored_text<T: FromEnvStr>(
    m: Map<Seq<char>, Seq<char>>,
    key: Seq<char>,
    default: Option<T>,
    r: Result<T, EnvLockError>,
)
    ensures
        m.contains_key(key) ==> (field_outcome(key, map_lookup(m, key), default, r) <==> parse_outcome(
            key,
            m[key],
            r,
        )),
        !m.contains_key(key) ==> (field_outcome(key, map_lookup(m, key), default, r) <==> match default {
            Some(d) => r == Ok::<T, EnvLockError>(d),
            None => absent_outcome(key, r),
        }),
{
}

} // verus!
