use minigrep::search_with_config;
use minigrep::Config;
use minigrep::ConfigError;

fn args_from(parts: &[&str]) -> Vec<String> {
    parts.iter().map(|s| s.to_string()).collect()
}

#[test]
fn missing_pattern_argument_is_reported() {
    let r = Config::new(args_from(&["minigrep"]), false);
    assert_eq!(ConfigError::MissingPattern, r.unwrap_err());
}

#[test]
fn missing_file_argument_fails_before_any_io() {
    let r = Config::new(args_from(&["minigrep", "duct"]), false);
    assert_eq!(ConfigError::MissingFile, r.unwrap_err());
}

#[test]
fn config_holds_pattern_and_file() {
    let c = Config::new(args_from(&["minigrep", "duct", "poem.txt"]), false).unwrap();
    assert_eq!("duct", c.pattern);
    assert_eq!("poem.txt", c.file);
}

#[test]
fn default_is_case_sensitive() {
    let c = Config::new(args_from(&["minigrep", "duct", "poem.txt"]), false).unwrap();
    assert!(c.case_sensitive);
}

#[test]
fn env_variable_presence_forces_insensitive() {
    let c = Config::new(args_from(&["minigrep", "duct", "poem.txt"]), true).unwrap();
    assert!(!c.case_sensitive);
}

#[test]
fn sensitive_flag_overrides_env_variable() {
    let c = Config::new(
        args_from(&["minigrep", "duct", "poem.txt", "--case-sensitive"]),
        true,
    )
    .unwrap();
    assert!(c.case_sensitive);
}

#[test]
fn insensitive_flag_forces_insensitive() {
    let c = Config::new(
        args_from(&["minigrep", "duct", "poem.txt", "--no-case-sensitive"]),
        false,
    )
    .unwrap();
    assert!(!c.case_sensitive);
}

#[test]
fn insensitive_flag_beats_sensitive_flag() {
    let c = Config::new(
        args_from(&["minigrep", "duct", "poem.txt", "--case-sensitive", "--no-case-sensitive"]),
        false,
    )
    .unwrap();
    assert!(!c.case_sensitive);
}

#[test]
fn error_messages_name_the_absent_argument() {
    let missing_pattern = Config::new(args_from(&["minigrep"]), false).unwrap_err();
    assert_eq!("Missing the 'pattern' argument", missing_pattern.message());
    let missing_file = Config::new(args_from(&["minigrep", "duct"]), false).unwrap_err();
    assert_eq!("Missing the 'file' argument", missing_file.message());
}

#[test]
fn search_with_config_dispatches_on_sensitivity() {
    let text = "Rust:\nsécurité, rapidité, productivité.\nObtenez les trois en même temps.\nC'est pas rustique.";
    let sensitive = Config::new(args_from(&["minigrep", "rUsT", "poem.txt"]), false).unwrap();
    assert!(search_with_config(&sensitive, text).is_empty());
    let insensitive = Config::new(args_from(&["minigrep", "rUsT", "poem.txt"]), true).unwrap();
    assert_eq!(
        vec!["Rust:", "C'est pas rustique."],
        search_with_config(&insensitive, text)
    );
}
