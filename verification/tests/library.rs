// Concrete cases of the library's laws, of each error it produces, and of
// the outside calls it makes.
use lockedenv::check::{check_report, ErrorCollector};
use lockedenv::dotenv::{load_result, LoadOutcome};
use lockedenv::lock::{
    __missing_value, __read_default, __read_required, full_key, map_field, map_field_or, parse_val,
    EnvRead,
};
use lockedenv::parse::FromEnvStr;
use lockedenv::text::decimal_string;
use lockedenv::watcher::{WatchHandle, WatchState};
use lockedenv::{EnvLockError, Secret};
use std::collections::HashMap;
use std::time::Duration;

fn hmap(pairs: &[(&str, &str)]) -> HashMap<String, String> {
    pairs.iter().map(|(k, v)| ((*k).to_string(), (*v).to_string())).collect()
}

fn err_of<T>(r: Result<T, EnvLockError>) -> EnvLockError {
    match r {
        Ok(_) => panic!("expected an error"),
        Err(e) => e,
    }
}

fn fail_text<T: FromEnvStr>(s: &str) -> String {
    match T::from_env_str(s) {
        Ok(_) => panic!("expected {s:?} to be refused"),
        Err(e) => e,
    }
}

// ── the text of errors ────────────────────────────────────────────────────

#[test]
fn missing_error_text_names_variable() {
    let e = EnvLockError::missing("PORT".into());
    assert_eq!(
        e.to_string(),
        "EnvLockError: missing required variable\n  variable: PORT\n  hint: add PORT to your environment or .env file"
    );
}

#[test]
fn parse_error_text_names_variable_and_value() {
    let e = EnvLockError::parse_error("PORT".into(), "abc".into(), "bad port");
    assert_eq!(
        e.to_string(),
        "EnvLockError: failed to parse environment variable\n  variable: PORT\n  found: \"abc\"\n  expected type: bad port"
    );
}

#[test]
fn dotenv_error_text_names_path_and_cause() {
    let e = EnvLockError::dotenv(".env".into(), "line 3".into());
    assert_eq!(
        e.to_string(),
        "EnvLockError: failed to load .env file\n  path: .env\n  cause: line 3"
    );
}

#[test]
fn hint_is_shown_after_the_message() {
    let base = EnvLockError::parse_error("TIMEOUT".into(), "5min".into(), "unknown unit");
    let plain = base.to_string();
    let hinted = base.with_hint("use 5m or 5s instead").to_string();
    assert_eq!(hinted, format!("{plain}\n  hint: use 5m or 5s instead"));
}

#[test]
fn hint_on_every_variant() {
    let m = EnvLockError::missing("X".into()).with_hint("set X").to_string();
    assert!(m.ends_with("\n  hint: set X"));
    let d = EnvLockError::dotenv(".env".into(), "io".into()).with_hint("check the file").to_string();
    assert!(d.ends_with("\n  hint: check the file"));
}

#[test]
fn last_hint_wins() {
    let e = EnvLockError::missing("X".into()).with_hint("first").with_hint("second");
    let s = e.to_string();
    assert!(s.ends_with("\n  hint: second"));
    assert!(!s.contains("first"));
    assert_eq!(s, EnvLockError::missing("X".into()).with_hint("second").to_string());
}

#[test]
fn clone_keeps_every_field() {
    let e = EnvLockError::parse_error("A".into(), "b".into(), "c").with_hint("d");
    assert_eq!(e.clone().to_string(), e.to_string());
}

// ── integers ──────────────────────────────────────────────────────────────

#[test]
fn integer_error_kinds() {
    assert_eq!(fail_text::<u8>(""), "cannot parse integer from empty string");
    assert_eq!(fail_text::<u8>("12a"), "invalid digit found in string");
    assert_eq!(fail_text::<u8>("+"), "invalid digit found in string");
    assert_eq!(fail_text::<i8>("-"), "invalid digit found in string");
    assert_eq!(fail_text::<u8>("-1"), "invalid digit found in string");
    assert_eq!(fail_text::<u8>("256"), "number too large to fit in target type");
    assert_eq!(fail_text::<i8>("-129"), "number too small to fit in target type");
    // the first digit past the bound fails before a later non-digit is seen
    assert_eq!(fail_text::<u8>("999x"), "number too large to fit in target type");
}

#[test]
fn integer_bounds_and_signs() {
    assert_eq!(i8::from_env_str("-128").unwrap(), i8::MIN);
    assert_eq!(i8::from_env_str("+127").unwrap(), 127);
    assert_eq!(i32::from_env_str("-0").unwrap(), 0);
    assert_eq!(u128::from_env_str("340282366920938463463374607431768211455").unwrap(), u128::MAX);
    assert_eq!(i128::from_env_str("-170141183460469231731687303715884105728").unwrap(), i128::MIN);
    assert_eq!(usize::from_env_str("007").unwrap(), 7);
    assert_eq!(isize::from_env_str("-42").unwrap(), -42);
    assert_eq!(i16::from_env_str("-32768").unwrap(), i16::MIN);
}

#[test]
fn decimal_text_parses_back() {
    assert_eq!(decimal_string(0), "0");
    assert_eq!(decimal_string(907), "907");
    for n in [0usize, 9, 10, 255, 65535, 123456789] {
        assert_eq!(u64::from_env_str(&decimal_string(n)).unwrap(), n as u64);
    }
}

// ── bool, char, String ────────────────────────────────────────────────────

#[test]
fn bool_and_char_failures() {
    assert_eq!(fail_text::<bool>("maybe"), "invalid bool: maybe");
    assert_eq!(fail_text::<char>("ab"), "expected single character");
    assert!(bool::from_env_str("No").unwrap() == false);
    assert!(bool::from_env_str("yEs").unwrap());
}

// ── lists ─────────────────────────────────────────────────────────────────

#[test]
fn list_items_are_trimmed_and_non_empty() {
    let v = Vec::<String>::from_env_str(" a , ,b ,\t").unwrap();
    assert_eq!(v, vec!["a", "b"]);
    let blank = Vec::<u8>::from_env_str(" \u{3000} ").unwrap();
    assert!(blank.is_empty());
}

#[test]
fn list_error_names_the_item() {
    assert_eq!(
        fail_text::<Vec<u16>>("80,nope,443"),
        "item[1] \"nope\": invalid digit found in string"
    );
    assert_eq!(
        fail_text::<Vec<Secret<u16>>>("80,nope,443"),
        "item[1]: invalid digit found in string"
    );
    assert_eq!(
        fail_text::<Vec<u16>>("1,no\"pe"),
        "item[1] \"no\\\"pe\": invalid digit found in string"
    );
}

// ── durations ─────────────────────────────────────────────────────────────

#[test]
fn duration_failures() {
    assert_eq!(fail_text::<Duration>(""), "empty duration string");
    assert_eq!(fail_text::<Duration>("abc"), "expected digit at \"abc\"");
    assert_eq!(fail_text::<Duration>("1h x"), "expected digit at \" x\"");
    assert_eq!(fail_text::<Duration>("100"), "missing unit after \"100\"");
    assert_eq!(
        fail_text::<Duration>("5min"),
        "unknown duration unit \"min\" \u{2014} use h, m, s, ms"
    );
    assert_eq!(
        fail_text::<Duration>("99999999999999999999h"),
        "bad number \"99999999999999999999\""
    );
    assert_eq!(fail_text::<Duration>("5124095576030432h"), "overflow in hours");
    assert_eq!(fail_text::<Duration>("307445734561825861m"), "overflow in minutes");
    assert_eq!(fail_text::<Duration>("18446744073709551615s1s"), "duration total overflow");
}

#[test]
fn duration_largest_value() {
    assert_eq!(
        Duration::from_env_str("18446744073709551615s999ms").unwrap(),
        Duration::new(u64::MAX, 999_000_000)
    );
    assert_eq!(Duration::from_env_str("5124095576030431h").unwrap(), Duration::from_secs(5124095576030431 * 3600));
}

#[test]
fn durations_written_one_after_the_other_add_up() {
    let a = Duration::from_env_str("1h").unwrap();
    let b = Duration::from_env_str("30m").unwrap();
    assert_eq!(Duration::from_env_str("1h30m").unwrap(), a + b);
    assert_eq!(Duration::from_env_str("1500ms").unwrap(), Duration::from_millis(1500));
}

#[test]
fn decimal_durations() {
    assert_eq!(Duration::from_env_str("1.5h").unwrap(), Duration::from_secs(5400));
    assert_eq!(Duration::from_env_str("0.5s").unwrap(), Duration::from_millis(500));
    assert_eq!(Duration::from_env_str("2.25m").unwrap(), Duration::from_secs(135));
    assert_eq!(Duration::from_env_str("1.5ms").unwrap(), Duration::from_nanos(1_500_000));
    assert_eq!(Duration::from_env_str("1.5h30s").unwrap(), Duration::from_secs(5430));
    // truncated to whole nanoseconds
    assert_eq!(Duration::from_env_str("0.3333333333333s").unwrap(), Duration::from_nanos(333_333_333));
    assert_eq!(Duration::from_env_str("0.0000000019s").unwrap(), Duration::from_nanos(1));
    assert_eq!(fail_text::<Duration>("1.h"), "missing unit after \"1\"");
    assert_eq!(fail_text::<Duration>("1.5"), "missing unit after \"1.5\"");
    assert_eq!(fail_text::<Duration>(".5s"), "expected digit at \".5s\"");
}

// ── Option and Secret ─────────────────────────────────────────────────────

#[test]
fn option_absent_or_empty_is_none() {
    assert_eq!(Option::<u16>::from_env_str("").unwrap(), None);
    assert_eq!(Option::<u16>::from_env_str("7").unwrap(), Some(7));
    assert!(Option::<u16>::missing_value("K").unwrap().is_none());
    assert_eq!(fail_text::<Option<u16>>("x"), "invalid digit found in string");
}

#[test]
fn secret_parses_as_inner() {
    let s = Secret::<u16>::from_env_str("42").unwrap();
    assert_eq!(*s, 42);
    assert_eq!(*s.as_ref(), 42);
    assert_eq!(fail_text::<Secret<u16>>("x"), "invalid digit found in string");
    assert!(Secret::<Option<u16>>::missing_value("K").unwrap().is_none());
}

// ── field resolution ──────────────────────────────────────────────────────

#[test]
fn present_value_overrides_default() {
    let m = hmap(&[("X", "5")]);
    assert_eq!(map_field_or::<u32>(&m, "", "X", 9).unwrap(), 5);
    assert_eq!(map_field_or::<u32>(&m, "", "Y", 9).unwrap(), 9);
    // a bad present value is an error even with a default
    let bad = hmap(&[("X", "no")]);
    assert!(map_field_or::<u32>(&bad, "", "X", 9).is_err());
}

#[test]
fn redacted_value_is_hidden_in_the_error() {
    let m = hmap(&[("TOKEN", "hunter2")]);
    match err_of(map_field::<Secret<u32>>(&m, "", "TOKEN")) {
        EnvLockError::Parse { variable, found, expected, .. } => {
            assert_eq!(variable, "TOKEN");
            assert_eq!(found, "[REDACTED]");
            assert_eq!(expected, "invalid digit found in string");
        }
        _ => panic!("expected a parse error"),
    }
    match err_of(parse_val::<u32>("PLAIN", "hunter2")) {
        EnvLockError::Parse { found, .. } => assert_eq!(found, "hunter2"),
        _ => panic!("expected a parse error"),
    }
}

#[test]
fn prefix_and_name_make_the_key() {
    assert_eq!(full_key("SVC_", "PORT"), "SVC_PORT");
    let m = hmap(&[("SVC_PORT", "1"), ("PORT", "2")]);
    assert_eq!(map_field::<u8>(&m, "SVC_", "PORT").unwrap(), 1);
    assert_eq!(map_field::<u8>(&m, "", "PORT").unwrap(), 2);
}

#[test]
fn environment_reads() {
    let present = EnvRead::Present("8080".into());
    assert_eq!(__read_required::<u16>("PORT", &present).unwrap(), 8080);
    assert_eq!(__read_default::<u16>("PORT", 1, &present).unwrap(), 8080);
    assert_eq!(__read_default::<u16>("PORT", 1, &EnvRead::NotPresent).unwrap(), 1);
    assert!(__read_required::<Option<u16>>("PORT", &EnvRead::NotPresent).unwrap().is_none());
    match err_of(__read_required::<u16>("PORT", &EnvRead::NotPresent)) {
        EnvLockError::Missing { variable, .. } => assert_eq!(variable, "PORT"),
        _ => panic!("expected a missing error"),
    }
    match err_of(__read_default::<u16>("PORT", 1, &EnvRead::NotUnicode)) {
        EnvLockError::Parse { variable, found, expected, .. } => {
            assert_eq!(variable, "PORT");
            assert_eq!(found, "<non-unicode>");
            assert_eq!(expected, "value contains non-UTF-8 bytes");
        }
        _ => panic!("expected a parse error"),
    }
    assert!(__missing_value::<String>("K").is_err());
}

// ── collecting every error ────────────────────────────────────────────────

#[test]
fn collector_keeps_every_failure() {
    let mut c = ErrorCollector::new();
    assert_eq!(c.record::<u8>(Ok(1)), Some(1));
    assert_eq!(c.record::<u8>(Err(EnvLockError::missing("A".into()))), None);
    assert_eq!(c.record::<u8>(Err(EnvLockError::missing("B".into()))), None);
    let errs = c.finish().unwrap_err();
    assert_eq!(errs.len(), 2);
    let quiet = ErrorCollector::new();
    assert!(quiet.finish().is_ok());
}

#[test]
fn report_lists_every_error() {
    let errs = vec![EnvLockError::missing("A".into()), EnvLockError::missing("B".into())];
    let r = check_report(&errs);
    assert_eq!(
        r,
        format!("2 configuration error(s):\n  - {}\n  - {}", errs[0].to_string(), errs[1].to_string())
    );
    assert!(r.contains(&errs[0].to_string()));
    assert!(r.contains(&errs[1].to_string()));
}

// ── .env loading ──────────────────────────────────────────────────────────

#[test]
fn dotenv_outcomes() {
    assert!(load_result(".env".into(), LoadOutcome::Loaded).is_ok());
    assert!(load_result(".env".into(), LoadOutcome::NotFound).is_ok());
    match err_of(load_result(".env".into(), LoadOutcome::Failed("line 1: bad".into()))) {
        EnvLockError::Dotenv { path, cause, .. } => {
            assert_eq!(path, ".env");
            assert_eq!(cause, "line 1: bad");
        }
        _ => panic!("expected a dotenv error"),
    }
}

// ── drift detection ───────────────────────────────────────────────────────

fn keys(ks: &[&str]) -> Vec<String> {
    ks.iter().map(|k| k.to_string()).collect()
}

fn vals(vs: &[Option<&str>]) -> Vec<Option<String>> {
    vs.iter().map(|v| v.map(|s| s.to_string())).collect()
}

#[test]
fn drift_reports_changes_in_key_order() {
    let s = WatchState::new(keys(&["A", "B", "C", "D"]), vals(&[Some("1"), Some("2"), None, None]));
    let d = s.detect(&vals(&[Some("1"), None, Some("3"), None]));
    assert_eq!(d.len(), 2);
    assert_eq!((d[0].key.as_str(), d[0].old.as_str(), d[0].new.as_str()), ("B", "2", "<removed>"));
    assert_eq!((d[1].key.as_str(), d[1].old.as_str(), d[1].new.as_str()), ("C", "<missing>", "3"));
    let changed = s.detect(&vals(&[Some("9"), Some("2"), None, None]));
    assert_eq!(changed.len(), 1);
    assert_eq!((changed[0].old.as_str(), changed[0].new.as_str()), ("1", "9"));
}

#[test]
fn unchanged_values_are_quiet() {
    let s = WatchState::new(keys(&["A", "B"]), vals(&[Some("1"), None]));
    assert!(s.detect(&vals(&[Some("1"), None])).is_empty());
}

#[test]
fn watcher_without_keys_never_fires() {
    let s = WatchState::new(Vec::new(), Vec::new());
    assert!(s.detect(&vals(&[Some("x")])).is_empty());
}

#[test]
fn advanced_snapshot_is_not_reported_again() {
    let mut s = WatchState::new(keys(&["A"]), vals(&[Some("1")]));
    let now = vals(&[Some("2")]);
    assert_eq!(s.detect(&now).len(), 1);
    s.advance(now.clone());
    assert!(s.detect(&now).is_empty());
    assert_eq!(s.keys(), &keys(&["A"]));
}

#[test]
fn stop_signals_the_watcher() {
    let (tx, rx) = std::sync::mpsc::sync_channel::<()>(1);
    let h = WatchHandle::from_sender(tx);
    h.stop();
    assert_eq!(rx.try_recv(), Ok(()));
    assert!(rx.recv().is_err(), "the channel is closed once the handle is gone");
}

#[test]
fn hint_from_owned_string() {
    let h: String = format!("set {}", "X");
    let e = EnvLockError::missing("X".into()).with_hint(h);
    assert!(e.to_string().ends_with("\n  hint: set X"));
}
