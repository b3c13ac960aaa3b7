use ragcore::config::{parse_args, ConfigError, Mode};

fn strings(v: &[&str]) -> Vec<String> {
    v.iter().map(|s| s.to_string()).collect()
}

#[test]
fn flags_assign_both_paths() {
    let cfg = parse_args(
        strings(&["--data-dir=/data", "--index-path=/idx.json"]),
        String::new(),
        String::new(),
    )
    .unwrap();
    assert_eq!(cfg.path, "/data");
    assert_eq!(cfg.index, "/idx.json");
    assert!(matches!(cfg.mode, Mode::Offline));
}

#[test]
fn environment_fills_missing_flags() {
    let cfg = parse_args(strings(&[]), "/env/data".to_string(), "/env/idx".to_string()).unwrap();
    assert_eq!(cfg.path, "/env/data");
    assert_eq!(cfg.index, "/env/idx");
}

#[test]
fn flags_win_over_environment() {
    let cfg = parse_args(
        strings(&["--data-dir=/flag"]),
        "/env/data".to_string(),
        "/env/idx".to_string(),
    )
    .unwrap();
    assert_eq!(cfg.path, "/flag");
    assert_eq!(cfg.index, "/env/idx");
}

#[test]
fn missing_data_dir_is_fatal_offline() {
    let err = parse_args(strings(&["--index-path=/idx"]), String::new(), String::new());
    assert_eq!(err.unwrap_err(), ConfigError::MissingDataDir);
}

#[test]
fn missing_index_path_is_fatal_offline() {
    let err = parse_args(strings(&["--data-dir=/d"]), String::new(), String::new());
    assert_eq!(err.unwrap_err(), ConfigError::MissingIndexPath);
}

#[test]
fn online_mode_needs_no_paths() {
    let cfg = parse_args(strings(&["--mode=online"]), String::new(), String::new()).unwrap();
    assert!(matches!(cfg.mode, Mode::Online));
    assert_eq!(cfg.path, "");
    assert_eq!(cfg.index, "");
}

#[test]
fn unknown_or_malformed_flags_change_nothing() {
    let cfg = parse_args(
        strings(&["--verbose", "--mode=quiet", "--other=1", "--data-dir=/d", "--index-path=/i"]),
        String::new(),
        String::new(),
    )
    .unwrap();
    assert!(matches!(cfg.mode, Mode::Offline));
    assert_eq!(cfg.path, "/d");
    assert_eq!(cfg.index, "/i");
}

#[test]
fn later_flags_override_earlier_ones() {
    let cfg = parse_args(
        strings(&["--data-dir=/one", "--data-dir=/two", "--index-path=/i"]),
        String::new(),
        String::new(),
    )
    .unwrap();
    assert_eq!(cfg.path, "/two");
}
