#![allow(non_snake_case)]
// Collecting every field's failure (the check-style loaders), from a map.
use lockedenv::check::ErrorCollector;
use lockedenv::lock::map_field;
use lockedenv::EnvLockError;
use std::collections::HashMap;

struct PortConfig {
    CM_PORT: u16,
}

fn check_port(m: &HashMap<String, String>) -> Result<PortConfig, Vec<EnvLockError>> {
    let mut errors = ErrorCollector::new();
    let CM_PORT = errors.record(map_field::<u16>(m, "", "CM_PORT"));
    errors.finish()?;
    Ok(PortConfig { CM_PORT: CM_PORT.unwrap() })
}

#[test]
fn try_check_map_returns_ok() {
    let m: HashMap<String, String> =
        [("CM_PORT".into(), "1234".into())].into_iter().collect();
    let cfg = check_port(&m).unwrap_or_else(|_| panic!("check failed"));
    assert_eq!(cfg.CM_PORT, 1234u16);
}

struct AbConfig {
    A: String,
    B: u16,
}

fn check_ab(m: &HashMap<String, String>) -> Result<AbConfig, Vec<EnvLockError>> {
    let mut errors = ErrorCollector::new();
    let A = errors.record(map_field::<String>(m, "", "A"));
    let B = errors.record(map_field::<u16>(m, "", "B"));
    errors.finish()?;
    Ok(AbConfig { A: A.unwrap(), B: B.unwrap() })
}

#[test]
fn try_check_map_collects_all_errors() {
    let m: HashMap<String, String> = HashMap::default();
    let errors = match check_ab(&m) {
        Ok(_) => panic!("expected errors"),
        Err(errors) => errors,
    };
    assert_eq!(
        errors.len(),
        2,
        "both missing → 2 errors, got {}",
        errors.len()
    );
}

struct SvcConfig {
    HOST: String,
    PORT: u16,
}

fn check_svc(m: &HashMap<String, String>) -> Result<SvcConfig, Vec<EnvLockError>> {
    let mut errors = ErrorCollector::new();
    let HOST = errors.record(map_field::<String>(m, "SVC_", "HOST"));
    let PORT = errors.record(map_field::<u16>(m, "SVC_", "PORT"));
    errors.finish()?;
    Ok(SvcConfig { HOST: HOST.unwrap(), PORT: PORT.unwrap() })
}

#[test]
fn try_check_map_with_prefix() {
    let m: HashMap<String, String> = [
        ("SVC_HOST".into(), "0.0.0.0".into()),
        ("SVC_PORT".into(), "80".into()),
    ]
    .into_iter()
    .collect();
    let cfg = check_svc(&m).unwrap_or_else(|_| panic!("check failed"));
    assert_eq!(cfg.HOST, "0.0.0.0");
    assert_eq!(cfg.PORT, 80u16);
}
