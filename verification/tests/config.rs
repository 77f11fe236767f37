use btc_node::config::{config_fields_from_lines, is_config_path, Config};
use btc_node::errors::ConfigError;
use std::collections::HashMap;

const VERSION: &str = "version";
const LOCAL_ADDRES: &str = "local_address";
const BEGIN_TIME: &str = "starting_date";
const LOG_PATH: &str = "log_file_path";
const HEADERS_PATH: &str = "headers_file_path";
const BLOCKS_PATH: &str = "blocks_file_path";
const IPV6_ENABLED: &str = "ipv6_enabled";
const DNS: &str = "DNS";
const EXTERNAL_ADDR: &str = "external_addr";

const STARTING_TIME: &str = "2023-04-10";
const LOG_FILE_PATH: &str = "tests_txt/config_test_log.txt";
const HEADERS_FILE_PATH: &str = "tests_txt/headers.bin";
const BLOCKS_FILE_PATH: &str = "tests_txt/blocks.bin";

fn create_parameters(
    version: &str,
    local_address: &str,
    begin_time: &str,
    ipv6_enabled: bool,
    dns_vector: &str,
    ext_addr_vector: &str,
) -> HashMap<String, String> {
    let mut paramenters = HashMap::new();

    paramenters.insert(VERSION.to_string(), version.to_string());
    paramenters.insert(LOCAL_ADDRES.to_string(), local_address.to_string());
    paramenters.insert(BEGIN_TIME.to_string(), begin_time.to_string());
    paramenters.insert(LOG_PATH.to_string(), LOG_FILE_PATH.to_string());
    paramenters.insert(HEADERS_PATH.to_string(), HEADERS_FILE_PATH.to_string());
    paramenters.insert(BLOCKS_PATH.to_string(), BLOCKS_FILE_PATH.to_string());
    paramenters.insert(IPV6_ENABLED.to_string(), ipv6_enabled.to_string());
    paramenters.insert(DNS.to_string(), dns_vector.to_string());
    paramenters.insert(EXTERNAL_ADDR.to_string(), ext_addr_vector.to_string());

    paramenters
}

fn fields(parameters: HashMap<String, String>) -> Vec<(String, String)> {
    parameters.into_iter().collect()
}

#[test]
fn config_test_3_saves_parameters_correctly() {
    let parameters = create_parameters(
        "70015",
        "127,0,0,1:1001",
        STARTING_TIME,
        false,
        "dns.first.example:18333;dns.second.example:18334",
        "127,0,0,2:18335;127,0,0,3:18333",
    );

    let expected_local_address = ([127, 0, 0, 1], 1001);
    let expected_begin_time_timestamp: u32 = 1681084800;
    let expected_dns = vec![
        ("dns.first.example".to_string(), 18333),
        ("dns.second.example".to_string(), 18334),
    ];
    let expected_external_addresses = vec![([127, 0, 0, 2], 18335), ([127, 0, 0, 3], 18333)];

    let config =
        Config::_from(fields(parameters)).expect("Could not create config from valid parameters.");

    assert_eq!(config.version, 70015);
    assert_eq!(config.local_address, expected_local_address);
    assert_eq!(config.begin_time, expected_begin_time_timestamp);
    assert_eq!(config.log_path, LOG_FILE_PATH.to_string());
    assert_eq!(config.headers_path, HEADERS_FILE_PATH.to_string());
    assert_eq!(config.blocks_path, BLOCKS_FILE_PATH.to_string());
    assert_eq!(config.ipv6_enabled, false);
    assert_eq!(config.dns, expected_dns);
    assert_eq!(config.external_addresses, expected_external_addresses);
}

#[test]
fn config_test_4_invalid_amount_parameters_cannot_create_config() {
    let mut parameters =
        create_parameters("70015", "127,0,0,1:1001", STARTING_TIME, false, "dns_vector:1", "1,2,3,4:2");

    parameters.remove(LOG_PATH);

    assert!(Config::_from(fields(parameters)).is_err());
}

#[test]
fn config_test_5_invalid_type_for_local_port_parameter_cannot_create_config() {
    let parameters = create_parameters(
        "70015",
        "127,0,0,1:this should be a u16",
        STARTING_TIME,
        true,
        "dns_vector:1",
        "1,2,3,4:2",
    );

    assert!(Config::_from(fields(parameters)).is_err());
}

#[test]
fn config_test_6_future_begin_time_parameter_cannot_create_config() {
    let tomorrow = chrono::Utc::now().date_naive().succ_opt().unwrap().to_string();
    let parameters =
        create_parameters("70015", "127,0,0,1:1001", &tomorrow, true, "dns_vector:1", "1,2,3,4:2");

    assert!(Config::_from(fields(parameters)).is_err());
}

#[test]
fn config_test_7_no_dns_parameter_can_create_config_correctly() {
    let parameters = create_parameters("70015", "127,0,0,1:1001", STARTING_TIME, true, "", "1,2,3,4:1");

    let expected_local_address = ([127, 0, 0, 1], 1001);
    let expected_begin_time_timestamp: u32 = 1681084800;
    let expected_dns: Vec<(String, u16)> = vec![];
    let expected_external_addresses = vec![([1, 2, 3, 4], 1)];

    let config =
        Config::_from(fields(parameters)).expect("Could not create config from valid parameters.");

    assert_eq!(config.version, 70015);
    assert_eq!(config.local_address, expected_local_address);
    assert_eq!(config.begin_time, expected_begin_time_timestamp);
    assert_eq!(config.log_path, LOG_FILE_PATH.to_string());
    assert_eq!(config.headers_path, HEADERS_FILE_PATH.to_string());
    assert_eq!(config.blocks_path, BLOCKS_FILE_PATH.to_string());
    assert_eq!(config.ipv6_enabled, true);
    assert_eq!(config.dns, expected_dns);
    assert_eq!(config.external_addresses, expected_external_addresses);
}

#[test]
fn config_test_8_no_ext_addr_parameter_can_create_config() {
    let parameters =
        create_parameters("70015", "127,0,0,1:1001", STARTING_TIME, true, "dns_vector:1", "");

    let expected_local_address = ([127, 0, 0, 1], 1001);
    let expected_begin_time_timestamp: u32 = 1681084800;
    let expected_dns = vec![("dns_vector".to_string(), 1)];
    let expected_external_addresses: Vec<([u8; 4], u16)> = vec![];

    let config =
        Config::_from(fields(parameters)).expect("Could not create config from valid parameters.");

    assert_eq!(config.version, 70015);
    assert_eq!(config.local_address, expected_local_address);
    assert_eq!(config.begin_time, expected_begin_time_timestamp);
    assert_eq!(config.log_path, LOG_FILE_PATH.to_string());
    assert_eq!(config.headers_path, HEADERS_FILE_PATH.to_string());
    assert_eq!(config.blocks_path, BLOCKS_FILE_PATH.to_string());
    assert_eq!(config.ipv6_enabled, true);
    assert_eq!(config.dns, expected_dns);
    assert_eq!(config.external_addresses, expected_external_addresses);
}

#[test]
fn config_test_9_no_dns_and_ext_addr_parameter_cannot_create_config() {
    let parameters = create_parameters("70015", "127,0,0,1:1001", STARTING_TIME, true, "", "");

    assert!(Config::_from(fields(parameters)).is_err());
}

#[test]
fn config_errors_name_the_field_that_fails() {
    let at = |version: &str, local: &str, date: &str, dns: &str, ext: &str| {
        let p = create_parameters(version, local, date, true, dns, ext);
        Config::_from_at(fields(p), 1_700_000_000).err()
    };
    assert_eq!(at("x", "127,0,0,1:1", STARTING_TIME, "a:1", ""), Some(ConfigError::ErrorParsingVersion));
    assert_eq!(at("70015", "1,2,3,4,5:1", STARTING_TIME, "a:1", ""), Some(ConfigError::ErrorParsingIP));
    assert_eq!(at("70015", "256,0,0,1:1", STARTING_TIME, "a:1", ""), Some(ConfigError::ErrorParsingIP));
    assert_eq!(at("70015", "127,0,0,1", STARTING_TIME, "a:1", ""), Some(ConfigError::ErrorParsingPort));
    assert_eq!(at("70015", "127,0,0,1:70000", STARTING_TIME, "a:1", ""), Some(ConfigError::ErrorParsingPort));
    assert_eq!(at("70015", "127,0,0,1:1", "10 April", "a:1", ""), Some(ConfigError::ErrorParsingDate));
    assert_eq!(at("70015", "127,0,0,1:1", "2030-01-01", "a:1", ""), Some(ConfigError::ErrorInvalidDate));
    assert_eq!(at("70015", "127,0,0,1:1", STARTING_TIME, "a", ""), Some(ConfigError::ErrorParsingPort));
    assert_eq!(at("70015", "127,0,0,1:1", STARTING_TIME, "", ""), Some(ConfigError::ErrorNoExternalAddressGiven));
}

#[test]
fn config_reads_short_addresses_signs_and_a_missing_field() {
    let p = create_parameters("-5", "+127,1:+80", STARTING_TIME, false, "", "9:1");
    let config = Config::_from_at(fields(p), 1_700_000_000).unwrap();
    assert_eq!(config.version, -5);
    assert_eq!(config.local_address, ([127, 1, 0, 0], 80));
    assert_eq!(config.external_addresses, vec![([9, 0, 0, 0], 1)]);

    let mut p = create_parameters("70015", "127,0,0,1:1", STARTING_TIME, false, "a:1", "");
    p.remove(DNS);
    p.insert("other".to_string(), "x".to_string());
    assert_eq!(
        Config::_from_at(fields(p), 1_700_000_000).err(),
        Some(ConfigError::ErrorParameterNotFound)
    );

    let p = create_parameters("70015", "127,0,0,1:1", STARTING_TIME, false, "a:1", "");
    let mut f = fields(p);
    f.push(("tenth".to_string(), "x".to_string()));
    assert_eq!(Config::_from_at(f, 1_700_000_000).err(), Some(ConfigError::ErrorMismatchedQuantityOfParameters));
}

#[test]
fn configuration_files_end_with_their_name() {
    assert!(is_config_path("nodo.conf"));
    assert!(is_config_path("/etc/btc/nodo.conf"));
    assert!(!is_config_path("nodo.config"));
    assert!(!is_config_path("odo.conf"));
}

#[test]
fn configuration_lines_give_one_field_per_name_the_last_value_kept() {
    let lines = vec![
        "version=70015".to_string(),
        "DNS=seed.example:18333=extra".to_string(),
        "version=70016".to_string(),
        "empty=".to_string(),
    ];
    let fields = config_fields_from_lines(&lines);
    assert_eq!(
        fields,
        vec![
            ("empty".to_string(), "".to_string()),
            ("version".to_string(), "70016".to_string()),
            ("DNS".to_string(), "seed.example:18333".to_string()),
        ]
    );
}

fn config_lines(extra: &[&str]) -> Vec<String> {
    let mut lines = vec![
        "version=70015".to_string(),
        "local_address=127,0,0,1:1001".to_string(),
        format!("starting_date={}", STARTING_TIME),
        format!("log_file_path={}", LOG_FILE_PATH),
        format!("headers_file_path={}", HEADERS_FILE_PATH),
        format!("blocks_file_path={}", BLOCKS_FILE_PATH),
        "ipv6_enabled=false".to_string(),
        "DNS=seed.example:18333".to_string(),
    ];
    for line in extra {
        lines.push(line.to_string());
    }
    lines
}

#[test]
fn a_repeated_name_in_a_configuration_file_counts_once() {
    let lines = config_lines(&["external_addr=", "version=70016"]);
    assert_eq!(lines.len(), 10);
    let config = Config::_from_at(config_fields_from_lines(&lines), 1_700_000_000).unwrap();
    assert_eq!(config.version, 70016);
}

#[test]
fn a_repeated_name_does_not_stand_for_a_missing_one() {
    let lines = config_lines(&["version=70016"]);
    assert_eq!(lines.len(), 9);
    assert_eq!(
        Config::_from_at(config_fields_from_lines(&lines), 1_700_000_000).err(),
        Some(ConfigError::ErrorMismatchedQuantityOfParameters)
    );
}
