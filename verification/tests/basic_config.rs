use btc_node::basic_config::{config_values_from_lines, Config, ConfigError};

#[test]
fn test_config_3_saves_parameters_correctly() {
    let parameters = vec![
        "70015".to_string(),
        "53".to_string(),
        "127,0,0,1".to_string(),
        "1001".to_string(),
        "path/to/log_file".to_string(),
    ];

    let config = Config::_from(parameters).expect("Could not create config from valid parameters.");

    assert_eq!(config.version, 70015);
    assert_eq!(config.dns_port, 53);
    assert_eq!(config.local_host, [127, 0, 0, 1]);
    assert_eq!(config.local_port, 1001);
    assert_eq!(config.log_file_path, "path/to/log_file".to_string());
}

#[test]
fn test_config_4_invalid_ammount_parameters_cannot_create_config() {
    let parameters = vec![
        "70015".to_string(),
        "53".to_string(),
        "127,0,0,1".to_string(),
        "1001".to_string(),
    ];

    assert!(Config::_from(parameters).is_err());
}

#[test]
fn test_config_5_invalid_type_of_parameters_cannot_create_config() {
    let parameters = vec![
        "70015".to_string(),
        "53".to_string(),
        "34".to_string(),
        "this should be a u16".to_string(),
        "path/to/log_file".to_string(),
    ];

    assert!(Config::_from(parameters).is_err());
}

#[test]
fn basic_config_errors() {
    let four = vec!["1".to_string(), "2".to_string(), "3".to_string(), "4".to_string()];
    assert_eq!(Config::_from(four).err(), Some(ConfigError::ErrorMismatchedQuantityOfParameters));
    let bad_host = vec![
        "1".to_string(),
        "2".to_string(),
        "1,2,3,4,5".to_string(),
        "4".to_string(),
        "log".to_string(),
    ];
    assert_eq!(Config::_from(bad_host).err(), Some(ConfigError::ErrorFillingAttributes));
    let short_host = vec![
        "1".to_string(),
        "2".to_string(),
        "10,20".to_string(),
        "4".to_string(),
        "log".to_string(),
    ];
    assert_eq!(Config::_from(short_host).unwrap().local_host, [10, 20, 0, 0]);
}

#[test]
fn configuration_lines_give_their_values_in_order() {
    let lines = vec!["version=70015".to_string(), "port=53=x".to_string(), "path=".to_string()];
    assert_eq!(
        config_values_from_lines(&lines),
        vec!["70015".to_string(), "53".to_string(), "".to_string()]
    );
}
