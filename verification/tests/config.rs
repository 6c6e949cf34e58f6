use wait::config_from_env;

#[test]
fn should_get_config_values_from_env() {
    let config = config_from_env(
        Some("localhost:1234".to_string()),
        Some("".to_string()),
        Some("2".to_string()),
        Some("3".to_string()),
    );
    assert_eq!("localhost:1234".to_string(), config.hosts);
    assert_eq!(30, config.timeout);
    assert_eq!(2, config.wait_before);
    assert_eq!(3, config.wait_after);
}

#[test]
fn should_default_all_fields_when_nothing_is_set() {
    let config = config_from_env(None, None, None, None);
    assert_eq!("".to_string(), config.hosts);
    assert_eq!(30, config.timeout);
    assert_eq!(0, config.wait_before);
    assert_eq!(0, config.wait_after);
}

#[test]
fn should_default_timeout_when_not_numeric() {
    let config = config_from_env(
        Some("localhost:1234".to_string()),
        Some("10o".to_string()),
        None,
        Some("10".to_string()),
    );
    assert_eq!("localhost:1234".to_string(), config.hosts);
    assert_eq!(30, config.timeout);
    assert_eq!(0, config.wait_before);
    assert_eq!(10, config.wait_after);
}
