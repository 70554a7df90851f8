use rist::cli::{parse_args, settings_for};
use rist::config::{
    builtin_config, default_config_text, first_run_config, parse_config, parse_uint, ConfigError,
    ConfigKey,
};

fn chars(s: &str) -> Vec<char> {
    s.chars().collect()
}

fn text(v: &[char]) -> String {
    v.iter().collect()
}

#[test]
fn default_text_is_the_five_default_lines() {
    assert_eq!(
        text(&default_config_text()),
        "truncate:false\ntruncate_at:10\nabsolute_limit:40\nitems:4\nspacing:2\n"
    );
}

#[test]
fn default_text_reads_back_as_first_run_settings() {
    let cfg = parse_config(&default_config_text()).unwrap();
    assert_eq!(cfg, first_run_config());
    assert!(!cfg.truncate);
    assert_eq!(cfg.truncate_at, 10);
    assert_eq!(cfg.absolute_limit, 40);
    assert_eq!(cfg.items, 4);
    assert_eq!(cfg.spacing, 2);
    assert!(cfg.items_explicit);
}

#[test]
fn missing_keys_keep_builtin_values() {
    let cfg = parse_config(&chars("spacing:5\nunknown:7\n# comment")).unwrap();
    let mut expected = builtin_config();
    expected.spacing = 5;
    assert_eq!(cfg, expected);
    assert!(!cfg.items_explicit);
    assert_eq!(parse_config(&chars("")).unwrap(), builtin_config());
}

#[test]
fn each_key_is_read() {
    let cfg = parse_config(&chars(
        "truncate:true\r\ntruncate_at:7\nabsolute_limit:+30\nitems:3\nspacing:0",
    ))
    .unwrap();
    assert!(cfg.truncate);
    assert_eq!(cfg.truncate_at, 7);
    assert_eq!(cfg.absolute_limit, 30);
    assert_eq!(cfg.items, 3);
    assert!(cfg.items_explicit);
    assert_eq!(cfg.spacing, 0);
}

#[test]
fn later_lines_override_earlier_ones() {
    let cfg = parse_config(&chars("items:3\nitems:9\n")).unwrap();
    assert_eq!(cfg.items, 9);
}

#[test]
fn bad_values_are_errors_with_their_line() {
    assert_eq!(
        parse_config(&chars("truncate:yes")),
        Err(ConfigError { line: 1, key: ConfigKey::Truncate })
    );
    assert_eq!(
        parse_config(&chars("spacing:1\ntruncate_at:ten\nitems:x")),
        Err(ConfigError { line: 2, key: ConfigKey::TruncateAt })
    );
    assert_eq!(
        parse_config(&chars("absolute_limit:-3")),
        Err(ConfigError { line: 1, key: ConfigKey::AbsoluteLimit })
    );
    assert_eq!(
        parse_config(&chars("\n\nitems:")),
        Err(ConfigError { line: 3, key: ConfigKey::Items })
    );
    assert_eq!(
        parse_config(&chars("spacing:99999999999999999999999999")),
        Err(ConfigError { line: 1, key: ConfigKey::Spacing })
    );
    // a carriage return not followed by a line feed stays in the value
    assert_eq!(
        parse_config(&chars("truncate:true\r")),
        Err(ConfigError { line: 1, key: ConfigKey::Truncate })
    );
}

#[test]
fn unsigned_values() {
    assert_eq!(parse_uint(&chars("0")), Some(0));
    assert_eq!(parse_uint(&chars("+42")), Some(42));
    assert_eq!(parse_uint(&chars("+")), None);
    assert_eq!(parse_uint(&chars("")), None);
    assert_eq!(parse_uint(&chars("4 ")), None);
    assert_eq!(parse_uint(&chars(&usize::MAX.to_string())), Some(usize::MAX));
    assert_eq!(parse_uint(&chars("99999999999999999999999")), None);
}

#[test]
fn settings_choice() {
    assert_eq!(settings_for(false, &Some(chars("items:9"))), Ok(builtin_config()));
    assert_eq!(settings_for(true, &None), Ok(first_run_config()));
    assert_eq!(settings_for(true, &Some(chars("items:9"))).unwrap().items, 9);
    assert!(settings_for(true, &Some(chars("items:nine"))).is_err());
}

#[test]
fn arguments() {
    let args: Vec<Vec<char>> = ["-a", "dir1", "-t", "dir2"].iter().map(|a| chars(a)).collect();
    let o = parse_args(&args);
    assert!(o.use_config);
    assert!(o.show_hidden);
    assert!(o.timed);
    assert_eq!(o.path.map(|p| text(&p)), Some("dir2".to_string()));
    let args: Vec<Vec<char>> = vec![chars("-nc")];
    let o = parse_args(&args);
    assert!(!o.use_config);
    assert!(!o.show_hidden);
    assert!(!o.timed);
    assert!(o.path.is_none());
}
