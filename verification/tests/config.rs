use snitch::config::{init, parse_config, unrecognized_keys, Config, ConfigError};

const SNITCH_TOML: &str = "owner = \"Kjoedicker\"\nrepo = \"snitch-lab\"\ntoken = \"token 1234\"\nprefix = \"TODO\"\ntotal_threads = \"4\"\nissues_per_request = \"25\"\nbase_tracker_url = \"https://api.github.com\"\n";

#[test]
fn maps_config() {
    let parsed_config = init(Some(SNITCH_TOML)).unwrap();

    let expected_conditions = &[
        (parsed_config.owner.is_empty(), false, "owner"),
        (parsed_config.repo.is_empty(), false, "repo"),
        (parsed_config.token.is_empty(), false, "token"),
        (parsed_config.prefix.is_empty(), false, "prefix"),
        ((parsed_config.total_threads == 0), false, "total_threads"),
    ];

    for (reality, expectation, desc) in expected_conditions {
        assert_eq!(reality, expectation, "{}", desc);
    }
}

#[test]
fn reads_every_setting() {
    let c = init(Some(SNITCH_TOML)).unwrap();
    assert_eq!(c.owner, "Kjoedicker");
    assert_eq!(c.repo, "snitch-lab");
    assert_eq!(c.token, "token 1234");
    assert_eq!(c.prefix, "TODO");
    assert_eq!(c.total_threads, 4);
    assert_eq!(c.issues_per_request, "25");
    assert_eq!(c.base_tracker_url, "https://api.github.com");
}

#[test]
fn uses_the_defaults_without_a_file() {
    let c = init(None).unwrap();
    assert_eq!(c.total_threads, 10);
    assert_eq!(c.prefix, "TODO");
    assert_eq!(c.issues_per_request, "10");
    assert!(c.owner.is_empty() && c.repo.is_empty() && c.token.is_empty());
    assert!(c.base_tracker_url.is_empty());
    let d = Config::default();
    assert_eq!(d.total_threads, 10);
    assert_eq!(d.prefix, "TODO");
}

#[test]
fn keeps_defaults_for_missing_keys() {
    let c = init(Some("owner = \"me\"\nunknown = \"x\"\n")).unwrap();
    assert_eq!(c.owner, "me");
    assert_eq!(c.total_threads, 10);
    assert_eq!(c.issues_per_request, "10");
}

#[test]
fn refuses_a_text_that_is_no_table() {
    assert!(matches!(init(Some("owner = ")), Err(ConfigError::InvalidToml)));
}

#[test]
fn refuses_a_value_that_is_not_a_string() {
    match init(Some("total_threads = 8\n")) {
        Err(ConfigError::NotAString { key }) => assert_eq!(key, "total_threads"),
        other => panic!("unexpected {:?}", other),
    }
}

#[test]
fn refuses_a_bad_thread_count() {
    match init(Some("total_threads = \"-3\"\n")) {
        Err(ConfigError::InvalidThreadCount { value }) => assert_eq!(value, "-3"),
        other => panic!("unexpected {:?}", other),
    }
    assert!(matches!(init(Some("total_threads = \"\"\n")), Err(ConfigError::InvalidThreadCount { .. })));
    assert!(matches!(
        init(Some("total_threads = \"99999999999999999999999\"\n")),
        Err(ConfigError::InvalidThreadCount { .. })
    ));
    assert_eq!(init(Some("total_threads = \"+12\"\n")).unwrap().total_threads, 12);
}

#[test]
fn applies_entries_in_order() {
    let c = parse_config(vec![
        ("repo".to_string(), Some("first".to_string())),
        ("repo".to_string(), Some("second".to_string())),
        ("total_threads".to_string(), Some("0007".to_string())),
        ("color".to_string(), Some("blue".to_string())),
    ]);
    assert_eq!(c.repo, "second");
    assert_eq!(c.total_threads, 7);
}

#[test]
fn lists_unrecognized_keys() {
    assert_eq!(
        unrecognized_keys("alpha = \"1\"\nowner = \"me\"\nzeta = \"2\"\n"),
        vec!["alpha".to_string(), "zeta".to_string()]
    );
    assert!(unrecognized_keys("not toml =").is_empty());
    // Applying stops at the first value that is not a string.
    assert_eq!(unrecognized_keys("a = \"1\"\nb = 2\nc = \"3\"\n"), vec!["a".to_string()]);
}
