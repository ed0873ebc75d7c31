#![allow(non_snake_case, clippy::uninlined_format_args)]
// Tests for FromEnvStr implementations and field resolution from a map.
use lockedenv::lock::{map_field, map_field_or};
use lockedenv::parse::FromEnvStr;
use lockedenv::EnvLockError;
use std::collections::HashMap;
use std::path::PathBuf;
use std::time::Duration;
use url::Url;

fn hmap(pairs: &[(&str, &str)]) -> HashMap<String, String> {
    pairs.iter().map(|(k, v)| ((*k).to_string(), (*v).to_string())).collect()
}

fn expect_err<T>(r: Result<T, EnvLockError>) -> EnvLockError {
    match r {
        Ok(_) => panic!("expected an error"),
        Err(e) => e,
    }
}

fn or_panic<T>(r: Result<T, EnvLockError>) -> T {
    r.unwrap_or_else(|e| panic!("{}", e.to_string()))
}

// ── integers ───────────────────────────────────────────────────────────────

#[test]
fn integer_roundtrip() {
    assert_eq!(u8::from_env_str("255").unwrap(), 255u8);
    assert_eq!(u16::from_env_str("65535").unwrap(), 65535u16);
    assert_eq!(u32::from_env_str("0").unwrap(), 0u32);
    assert_eq!(u64::from_env_str("18446744073709551615").unwrap(), u64::MAX);
    assert_eq!(i32::from_env_str("-2147483648").unwrap(), i32::MIN);
    assert_eq!(i64::from_env_str("9223372036854775807").unwrap(), i64::MAX);
    assert!(u8::from_env_str("256").is_err(), "u8 should reject 256");
    assert!(u32::from_env_str("-1").is_err(), "u32 should reject -1");
    assert!(i32::from_env_str("abc").is_err());
}

// ── bool ──────────────────────────────────────────────────────────────────

#[test]
fn bool_parsing() {
    for (s, exp) in [
        ("true", true), ("false", false),
        ("1", true), ("0", false),
        ("yes", true), ("no", false),
        ("TRUE", true), ("YES", true), ("False", false),
    ] {
        assert_eq!(bool::from_env_str(s).unwrap(), exp, "failed for {s:?}");
    }
    assert!(bool::from_env_str("maybe").is_err());
    assert!(bool::from_env_str("").is_err());
    assert!(bool::from_env_str("2").is_err());
}

// ── char ──────────────────────────────────────────────────────────────────

#[test]
fn char_parsing() {
    assert_eq!(char::from_env_str("A").unwrap(), 'A');
    assert_eq!(char::from_env_str("€").unwrap(), '€');
    assert!(char::from_env_str("").is_err(), "empty string is not a char");
    assert!(char::from_env_str("AB").is_err(), "two chars should be rejected");
}

// ── PathBuf ───────────────────────────────────────────────────────────────

#[test]
fn path_buf_parsing() {
    let p = PathBuf::from_env_str("/etc/hosts").unwrap();
    assert_eq!(p, PathBuf::from("/etc/hosts"));
    // any string is valid (existence is not checked)
    assert!(PathBuf::from_env_str("does/not/exist").is_ok());
}

// ── Duration ──────────────────────────────────────────────────────────────

#[test]
fn duration_parsing() {
    assert_eq!(Duration::from_env_str("30s").unwrap(),   Duration::from_secs(30));
    assert_eq!(Duration::from_env_str("5m").unwrap(),    Duration::from_secs(300));
    assert_eq!(Duration::from_env_str("2h").unwrap(),    Duration::from_secs(7200));
    assert_eq!(Duration::from_env_str("500ms").unwrap(), Duration::from_millis(500));
    assert_eq!(Duration::from_env_str("0s").unwrap(),    Duration::ZERO);
    // compound segments
    assert_eq!(Duration::from_env_str("1h30m").unwrap(),     Duration::from_secs(5400));
    assert_eq!(Duration::from_env_str("1h30m45s").unwrap(),  Duration::from_secs(5445));
    assert_eq!(Duration::from_env_str("2h500ms").unwrap(),   Duration::from_secs(7200) + Duration::from_millis(500));
}

#[test]
fn duration_invalid_inputs() {
    assert!(Duration::from_env_str("").is_err(),      "empty");
    assert!(Duration::from_env_str("100").is_err(),   "missing unit");
    assert!(Duration::from_env_str("5min").is_err(),  "unknown unit 'min'");
    assert!(Duration::from_env_str("abc").is_err(),   "no digits");
    assert!(Duration::from_env_str("1h2").is_err(),   "trailing digits without unit");
}

// ── Option<T> ─────────────────────────────────────────────────────────────

struct OptConfig {
    OPT_PORT: Option<u16>,
    OPT_EXTRA: Option<String>,
}

#[test]
fn option_present_and_absent() {
    let m = hmap(&[("OPT_PORT", "3000")]);
    let config = or_panic((|| -> Result<OptConfig, EnvLockError> {
        Ok(OptConfig {
            OPT_PORT: map_field(&m, "", "OPT_PORT")?,
            OPT_EXTRA: map_field(&m, "", "OPT_EXTRA")?,
        })
    })());
    assert_eq!(config.OPT_PORT, Some(3000));
    assert!(config.OPT_EXTRA.is_none());
}

#[test]
fn option_empty_string_is_none() {
    // An empty string in the map is treated as None for Option<T>
    let m = hmap(&[("OPT_EMPTY", "")]);
    let OPT_EMPTY: Option<u32> = or_panic(map_field(&m, "", "OPT_EMPTY"));
    assert!(OPT_EMPTY.is_none(), "empty string should map to None");
}

#[test]
fn option_parse_error_propagates() {
    let m = hmap(&[("OPT_BAD", "not_a_number")]);
    let result: Result<Option<u32>, EnvLockError> = map_field(&m, "", "OPT_BAD");
    assert!(result.is_err(), "invalid value inside Option should still error");
}

// ── try_from_map error content ────────────────────────────────────────────

#[test]
fn try_from_map_error_names_variable() {
    let m: HashMap<String, String> = HashMap::default();
    let r: Result<u16, EnvLockError> = map_field(&m, "", "MISSING_PORT");
    assert!(r.is_err());
    let msg = r.unwrap_err().to_string();
    assert!(msg.contains("MISSING_PORT"), "error should mention variable: {msg}");
}

#[test]
fn parse_error_message_has_value_and_var() {
    let m = hmap(&[("ERR_PORT", "abc")]);
    let r: Result<u16, EnvLockError> = map_field(&m, "", "ERR_PORT");
    let msg = r.unwrap_err().to_string();
    assert!(msg.contains("ERR_PORT"), "error message: {msg}");
    assert!(msg.contains("abc"),      "error message: {msg}");
}

// ── url ───────────────────────────────────────────────────────────────────

#[test]
fn url_type_parsing() {
    let ok = Url::from_env_str("https://example.com/path?q=1").unwrap();
    assert_eq!(ok.host_str(), Some("example.com"));
    assert_eq!(ok.scheme(), "https");
    assert!(Url::from_env_str("not a url").is_err());
    assert!(Url::from_env_str("").is_err());
}

#[test]
fn url_from_map() {
    let m = hmap(&[("API_BASE", "https://api.example.com")]);
    let API_BASE: url::Url = or_panic(map_field(&m, "", "API_BASE"));
    assert_eq!(API_BASE.host_str(), Some("api.example.com"));
}

// ── Vec<T> ────────────────────────────────────────────────────────────────

struct VecConfig {
    PORTS: Vec<u16>,
    EMPTY: Vec<String>,
    SINGLE: Vec<u32>,
}

#[test]
fn vec_parsing() {
    let m = hmap(&[
        ("PORTS", "80,443, 8080 ,  9000"),
        ("EMPTY", "   "),
        ("SINGLE", "1234"),
    ]);
    let config = or_panic((|| -> Result<VecConfig, EnvLockError> {
        Ok(VecConfig {
            PORTS: map_field(&m, "", "PORTS")?,
            EMPTY: map_field(&m, "", "EMPTY")?,
            SINGLE: map_field(&m, "", "SINGLE")?,
        })
    })());

    assert_eq!(config.PORTS, vec![80, 443, 8080, 9000]);
    assert!(config.EMPTY.is_empty());
    assert_eq!(config.SINGLE, vec![1234]);
}

#[test]
fn vec_error_contains_index() {
    let m = hmap(&[("PORTS", "80,nope,443")]);
    let r: Result<Vec<u16>, EnvLockError> = map_field(&m, "", "PORTS");
    let msg = r.unwrap_err().to_string();
    assert!(msg.contains("item[1]") || msg.contains("nope"), "error: {msg}");
}

// ── prefix support ────────────────────────────────────────────────────────

#[test]
fn map_prefix_support() {
    let m = hmap(&[
        ("APP_PORT", "8080"),
        ("APP_HOST", "localhost"),
    ]);

    let PORT: u16 = or_panic(map_field(&m, "APP_", "PORT"));
    let HOST: String = or_panic(map_field(&m, "APP_", "HOST"));

    assert_eq!(PORT, 8080);
    assert_eq!(HOST, "localhost");
}

// ── redaction propagation ─────────────────────────────────────────────────

#[test]
fn redact_propagated_in_option_secret() {
    // Option<Secret<String>> must inherit redaction from Secret
    assert!(
        <Option<lockedenv::Secret<String>> as FromEnvStr>::redact_in_errors(),
        "Option<Secret<T>> must propagate REDACT_IN_ERRORS"
    );
}

#[test]
fn redact_propagated_in_vec_secret() {
    assert!(
        <Vec<lockedenv::Secret<String>> as FromEnvStr>::redact_in_errors(),
        "Vec<Secret<T>> must propagate REDACT_IN_ERRORS"
    );
}

#[test]
fn redact_false_for_plain_types() {
    assert!(!<String as FromEnvStr>::redact_in_errors());
    assert!(!<u32 as FromEnvStr>::redact_in_errors());
    assert!(!<Vec<u16> as FromEnvStr>::redact_in_errors());
    assert!(!<Option<String> as FromEnvStr>::redact_in_errors());
}

#[test]
fn secret_parse_error_redacts_in_map() {
    // When a Secret<u32> receives an unparseable value, the error must NOT leak the raw value
    let m = hmap(&[("TOKEN", "not_a_number")]);
    let r: Result<lockedenv::Secret<u32>, EnvLockError> = map_field(&m, "", "TOKEN");
    let msg = expect_err(r).to_string();
    assert!(msg.contains("[REDACTED]"), "secret error: {msg}");
    assert!(!msg.contains("not_a_number"), "raw value leaked: {msg}");
}

#[test]
fn option_secret_parse_error_redacts_in_map() {
    let m = hmap(&[("TOKEN", "bad")]);
    let r: Result<Option<lockedenv::Secret<String>>, EnvLockError> = map_field(&m, "", "TOKEN");
    // Option<Secret<String>> parses the non-empty string "bad" as Some(Secret("bad")) — succeeds
    assert!(r.is_ok());
}

// ── Secret security ──────────────────────────────────────────────────────

#[test]
fn secret_zeroize_clears_inner() {
    let mut s = lockedenv::Secret::new("hello".to_string());
    s.zeroize();
    // After zeroize, the inner String should be empty (zeroed)
    assert!(s.as_ref().is_empty(), "zeroized secret must be empty");
}

#[test]
fn secret_clone_is_independent() {
    let mut original = lockedenv::Secret::new("data".to_string());
    let cloned = original.clone();
    original.zeroize();
    // Clone must be unaffected
    assert_eq!(cloned.as_ref(), "data");
    assert!(original.as_ref().is_empty());
}

#[test]
fn secret_eq_and_ne() {
    let a = lockedenv::Secret::new("same".to_string());
    let b = lockedenv::Secret::new("same".to_string());
    let c = lockedenv::Secret::new("diff".to_string());
    assert!(a == b);
    assert!(a != c);
}

#[test]
fn secret_new_and_from_are_equivalent() {
    let from_new = lockedenv::Secret::new(42u32);
    let from_trait: lockedenv::Secret<u32> = 42u32.into();
    assert!(from_new == from_trait);
}

#[test]
fn secret_into_inner_returns_value() {
    let s = lockedenv::Secret::new("payload".to_string());
    let inner = s.into_inner();
    assert_eq!(inner, "payload");
}

// ── field-resolution edge cases ───────────────────────────────────────────

#[test]
fn macro_single_field() {
    let m = hmap(&[("X", "1")]);
    let X: u32 = or_panic(map_field(&m, "", "X"));
    assert_eq!(X, 1);
}

#[test]
fn macro_nested_option_vec() {
    let m = hmap(&[("PORTS", "80,443")]);
    let PORTS: Option<Vec<u16>> = or_panic(map_field(&m, "", "PORTS"));
    assert_eq!(PORTS, Some(vec![80, 443]));
}

#[test]
fn macro_nested_option_vec_absent() {
    let m: HashMap<String, String> = HashMap::default();
    let PORTS: Option<Vec<u16>> = or_panic(map_field(&m, "", "PORTS"));
    assert!(PORTS.is_none());
}

#[test]
fn macro_all_defaults_no_entries() {
    let m: HashMap<String, String> = HashMap::default();
    let A: u32 = or_panic(map_field_or(&m, "", "A", 1));
    let B: String = or_panic(map_field_or(&m, "", "B", "default".to_string()));
    let C: bool = or_panic(map_field_or(&m, "", "C", false));
    assert_eq!(A, 1);
    assert_eq!(B, "default");
    assert!(!C);
}

struct SvcConfig {
    PORT: u16,
    HOST: String,
}

#[test]
fn try_from_map_with_prefix() {
    let m = hmap(&[("SVC_PORT", "9090"), ("SVC_HOST", "0.0.0.0")]);
    let r = (|| -> Result<SvcConfig, EnvLockError> {
        Ok(SvcConfig {
            PORT: map_field(&m, "SVC_", "PORT")?,
            HOST: map_field(&m, "SVC_", "HOST")?,
        })
    })();
    let config = or_panic(r);
    assert_eq!(config.PORT, 9090);
    assert_eq!(config.HOST, "0.0.0.0");
}

// ── error variant coverage ────────────────────────────────────────────────

#[test]
fn error_is_send_sync() {
    fn assert_send_sync<T: Send + Sync>() {}
    assert_send_sync::<lockedenv::EnvLockError>();
}

#[test]
fn error_is_clone() {
    let e = lockedenv::EnvLockError::missing("X".into());
    let e2 = e.clone();
    assert_eq!(e.to_string(), e2.to_string());
}

#[test]
fn parse_error_display_without_hint() {
    let e = lockedenv::EnvLockError::parse_error("X".into(), "y".into(), "z");
    let s = e.to_string();
    assert!(!s.contains("hint:"), "no hint should appear: {s}");
}

#[test]
fn dotenv_error_display_always_available() {
    // Dotenv variant can be constructed and displayed even without the dotenv feature
    let e = lockedenv::EnvLockError::dotenv("/path".into(), "parse error".into());
    let s = e.to_string();
    assert!(s.contains("/path"));
    assert!(s.contains("parse error"));
}

// ── edge cases for FromEnvStr ─────────────────────────────────────────────

#[test]
fn string_value_preserves_unicode_and_whitespace() {
    let m = hmap(&[("U", "  ciao 🦀\tnewline\n")]);
    let U: String = or_panic(map_field(&m, "", "U"));
    assert_eq!(U, "  ciao 🦀\tnewline\n");
}

#[test]
fn char_emoji() {
    assert_eq!(char::from_env_str("🦀").unwrap(), '🦀');
    assert!(char::from_env_str("🦀🦀").is_err(), "two emoji = two chars");
}

#[test]
fn duration_all_zeros() {
    assert_eq!(
        Duration::from_env_str("0h0m0s0ms").unwrap(),
        Duration::ZERO,
    );
}

#[test]
fn duration_repeated_units() {
    // "1h2h" is valid — units accumulate
    assert_eq!(
        Duration::from_env_str("1h2h").unwrap(),
        Duration::from_secs(3 * 3600),
    );
}

#[test]
fn vec_trailing_comma() {
    let v = Vec::<u16>::from_env_str("80,443,").unwrap();
    assert_eq!(v, vec![80, 443], "trailing comma → empty part filtered out");
}

#[test]
fn vec_leading_comma() {
    let v = Vec::<u16>::from_env_str(",80").unwrap();
    assert_eq!(v, vec![80], "leading comma → empty part filtered out");
}

#[test]
fn vec_only_commas() {
    let v = Vec::<u16>::from_env_str(",,,").unwrap();
    assert!(v.is_empty());
}

#[test]
fn vec_of_bools() {
    let v = Vec::<bool>::from_env_str("true,false,1,0,yes,no").unwrap();
    assert_eq!(v, vec![true, false, true, false, true, false]);
}

#[test]
fn option_secret_string_present() {
    let m = hmap(&[("TOK", "abc")]);
    let TOK: Option<lockedenv::Secret<String>> = or_panic(map_field(&m, "", "TOK"));
    assert_eq!(*TOK.unwrap(), "abc");
}

#[test]
fn option_secret_string_absent() {
    let m: HashMap<String, String> = HashMap::default();
    let TOK: Option<lockedenv::Secret<String>> = or_panic(map_field(&m, "", "TOK"));
    assert!(TOK.is_none());
}

#[test]
fn bool_whitespace_rejected() {
    assert!(bool::from_env_str(" true").is_err());
    assert!(bool::from_env_str("true ").is_err());
    assert!(bool::from_env_str(" 1 ").is_err());
}

#[test]
fn duration_number_overflow() {
    assert!(Duration::from_env_str("99999999999999999999h").is_err());
}

#[test]
fn vec_of_durations() {
    let v = Vec::<Duration>::from_env_str("30s, 1m, 2h").unwrap();
    assert_eq!(v, vec![Duration::from_secs(30), Duration::from_secs(60), Duration::from_secs(7200)]);
}

#[test]
fn vec_strings_with_internal_spaces() {
    let v = Vec::<String>::from_env_str("hello, world, foo bar").unwrap();
    assert_eq!(v, vec!["hello", "world", "foo bar"]);
}

#[test]
fn missing_value_trait_defaults() {
    assert!(u32::missing_value("K").is_err());
    assert!(String::missing_value("K").is_err());
    assert_eq!(Option::<u32>::missing_value("K").unwrap(), None);
    assert!(lockedenv::Secret::<String>::missing_value("K").is_err());
}

struct DurConfig {
    T: Option<Duration>,
    T2: Option<Duration>,
}

#[test]
fn option_duration_present_and_absent() {
    let m = hmap(&[("T", "5s")]);
    let cfg = or_panic((|| -> Result<DurConfig, EnvLockError> {
        Ok(DurConfig { T: map_field(&m, "", "T")?, T2: map_field(&m, "", "T2")? })
    })());
    assert_eq!(cfg.T, Some(Duration::from_secs(5)));
    assert!(cfg.T2.is_none());
}

struct MixConfig {
    REQ: String,
    OPT: Option<u32>,
    DEF: u32,
}

#[test]
fn macro_mix_required_optional_default() {
    let m = hmap(&[("REQ", "hello")]);
    let cfg = or_panic((|| -> Result<MixConfig, EnvLockError> {
        Ok(MixConfig {
            REQ: map_field(&m, "", "REQ")?,
            OPT: map_field(&m, "", "OPT")?,
            DEF: map_field_or(&m, "", "DEF", 42)?,
        })
    })());
    assert_eq!(cfg.REQ, "hello");
    assert!(cfg.OPT.is_none());
    assert_eq!(cfg.DEF, 42);
}

struct AllOptional {
    A: Option<String>,
    B: Option<u32>,
    C: Option<bool>,
}

#[test]
fn all_optional_fields_empty_map() {
    let m: HashMap<String, String> = HashMap::default();
    let cfg = or_panic((|| -> Result<AllOptional, EnvLockError> {
        Ok(AllOptional {
            A: map_field(&m, "", "A")?,
            B: map_field(&m, "", "B")?,
            C: map_field(&m, "", "C")?,
        })
    })());
    assert!(cfg.A.is_none());
    assert!(cfg.B.is_none());
    assert!(cfg.C.is_none());
}

struct TwoRequired {
    MISSING_FIRST: u32,
    MISSING_SECOND: u32,
}

#[test]
fn multiple_errors_first_field_wins() {
    let m: HashMap<String, String> = HashMap::default();
    let r = (|| -> Result<TwoRequired, EnvLockError> {
        Ok(TwoRequired {
            MISSING_FIRST: map_field(&m, "", "MISSING_FIRST")?,
            MISSING_SECOND: map_field(&m, "", "MISSING_SECOND")?,
        })
    })();
    let msg = expect_err(r).to_string();
    assert!(msg.contains("MISSING_FIRST"));
}

#[derive(Debug, Clone, PartialEq)]
struct ValConfig {
    VAL: u32,
}

fn val_config(m: &HashMap<String, String>) -> ValConfig {
    or_panic((|| -> Result<ValConfig, EnvLockError> { Ok(ValConfig { VAL: map_field(m, "", "VAL")? }) })())
}

#[test]
fn partial_eq_on_generated_struct() {
    let m = hmap(&[("VAL", "42")]);
    let config = val_config(&m);
    // PartialEq: a struct should equal its own clone
    assert_eq!(config, config.clone());
    // and differ after a known change (different parse, different config)
    let m2 = hmap(&[("VAL", "99")]);
    let config2 = val_config(&m2);
    assert_eq!(config2, config2.clone());
    assert_ne!(config.VAL, config2.VAL);
}

