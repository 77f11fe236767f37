//! The small configuration of five positional fields: version, DNS port,
//! local host, local port and log file.
use vstd::prelude::*;
use crate::config::{ip_parse, parse_ip_address, parse_port, parse_version};
use crate::text::{chars_of, parse_signed, parse_unsigned, split_chars, split_on, string_from_chars};

verus! {

pub const BASIC_PARAMETER_AMOUNT: usize = 5;

/// Why a configuration could not be made.
#[derive(Debug, PartialEq, Eq, Structural)]
pub enum ConfigError {
    ErrorReadingFile,
    ErrorFillingAttributes,
    ErrorMismatchedFileName,
    ErrorMismatchedQuantityOfParameters,
    ErrorMismatchedParameters,
}

/// The configuration.
#[derive(Debug)]
pub struct Config {
    pub version: i32,
    pub dns_port: u16,
    pub local_host: [u8; 4],
    pub local_port: u16,
    pub log_file_path: String,
}

/// A configuration as plain values.
pub struct BasicConfigView {
    pub version: i32,
    pub dns_port: u16,
    pub local_host: Seq<u8>,
    pub local_port: u16,
    pub log_file_path: Seq<char>,
}

impl View for Config {
    type V = BasicConfigView;

    open spec fn view(&self) -> BasicConfigView {
        BasicConfigView {
            version: self.version,
            dns_port: self.dns_port,
            local_host: self.local_host@,
            local_port: self.local_port,
            log_file_path: self.log_file_path@,
        }
    }
}

/// The configuration that five fields give, or `None` when one of them does
/// not read as its type.
pub open spec fn basic_config_fields(f: Seq<Seq<char>>) -> Option<BasicConfigView> {
    match (
        ip_parse(f[2]),
        parse_signed(f[0], -0x8000_0000, 0x7fff_ffff),
        parse_unsigned(f[1], 0xffff),
        parse_unsigned(f[3], 0xffff),
    ) {
        (Some(host), Some(version), Some(dns_port), Some(local_port)) => Some(
            BasicConfigView {
                version: version as i32,
                dns_port: dns_port as u16,
                local_host: host,
                local_port: local_port as u16,
                log_file_path: f[4],
            },
        ),
        _ => None,
    }
}

/// The configuration from the fields `f`: exactly five of them, each of its
/// type.
pub open spec fn basic_config_from(f: Seq<Seq<char>>) -> Result<BasicConfigView, ConfigError> {
    if f.len() != BASIC_PARAMETER_AMOUNT {
        Err(ConfigError::ErrorMismatchedQuantityOfParameters)
    } else {
        match basic_config_fields(f) {
            Some(c) => Ok(c),
            None => Err(ConfigError::ErrorFillingAttributes),
        }
    }
}

impl Config {
    /// Checks that there are exactly five fields.
    pub fn _validate_parameters(config_fields: &Vec<String>) -> (r: Result<(), ConfigError>)
        ensures
            r is Ok <==> config_fields@.len() == BASIC_PARAMETER_AMOUNT,
            r is Err ==> r == Err::<(), ConfigError>(ConfigError::ErrorMismatchedQuantityOfParameters),
    {
        if config_fields.len() != BASIC_PARAMETER_AMOUNT {
            return Err(ConfigError::ErrorMismatchedQuantityOfParameters);
        }
        Ok(())
    }

    /// Reads the five fields (see `basic_config_fields`).
    pub fn _initialize(config_fields: &Vec<String>) -> (r: Option<Config>)
        requires
            config_fields@.len() == BASIC_PARAMETER_AMOUNT,
        ensures
            match r {
                Some(c) => basic_config_fields(config_fields@.map_values(|s: String| s@)) == Some(c@),
                None => basic_config_fields(config_fields@.map_values(|s: String| s@)) is None,
            },
    {
        let ghost f = config_fields@.map_values(|s: String| s@);
        let host = parse_ip_address(chars_of(config_fields[2].as_str()).as_slice());
        let version = parse_version(chars_of(config_fields[0].as_str()).as_slice());
        let dns_port = parse_port(chars_of(config_fields[1].as_str()).as_slice());
        let local_port = parse_port(chars_of(config_fields[3].as_str()).as_slice());
        match (host, version, dns_port, local_port) {
            (Ok(local_host), Ok(version), Ok(dns_port), Ok(local_port)) => Some(
                Config {
                    version,
                    dns_port,
                    local_host,
                    local_port,
                    log_file_path: config_fields[4].clone(),
                },
            ),
            _ => None,
        }
    }

    /// The configuration from the fields, in order: version, DNS port, local
    /// host (up to four comma-separated octets), local port and log file.
    pub fn _from(config_fields: Vec<String>) -> (r: Result<Config, ConfigError>)
        ensures
            match r {
                Ok(c) => basic_config_from(config_fields@.map_values(|s: String| s@)) == Ok::<
                    BasicConfigView,
                    ConfigError,
                >(c@),
                Err(e) => basic_config_from(config_fields@.map_values(|s: String| s@)) == Err::<
                    BasicConfigView,
                    ConfigError,
                >(e),
            },
    {
        Config::_validate_parameters(&config_fields)?;
        match Config::_initialize(&config_fields) {
            Some(config) => Ok(config),
            None => Err(ConfigError::ErrorFillingAttributes),
        }
    }
}

/// The values of the lines of a configuration file: for each line, in order,
/// the text after its first `=` up to the next `=`.
pub open spec fn values_of_lines(lines: Seq<Seq<char>>) -> Seq<Seq<char>> {
    Seq::new(lines.len(), |i: int| split_on(lines[i], '=')[1])
}

/// The values of the lines of a configuration file (see
/// `values_of_lines`); every line holds an `=`.
pub fn config_values_from_lines(lines: &Vec<String>) -> (r: Vec<String>)
    requires
        forall|i: int| 0 <= i < lines@.len() ==> split_on((#[trigger] lines@[i])@, '=').len() >= 2,
    ensures
        r@.map_values(|v: String| v@) == values_of_lines(lines@.map_values(|l: String| l@)),
{
    let ghost want = values_of_lines(lines@.map_values(|l: String| l@));
    let mut values: Vec<String> = Vec::new();
    let mut i: usize = 0;
    while i < lines.len()
        invariant
            i <= lines@.len(),
            want == values_of_lines(lines@.map_values(|l: String| l@)),
            forall|k: int| 0 <= k < lines@.len() ==> split_on((#[trigger] lines@[k])@, '=').len() >= 2,
            values@.len() == i,
            forall|k: int| 0 <= k < i ==> (#[trigger] values@[k])@ == want[k],
        decreases lines@.len() - i,
    {
        let chars = chars_of(lines[i].as_str());
        let parts = split_chars(chars.as_slice(), '=');
        proof {
            assert(split_on(lines@[i as int]@, '=').len() >= 2);
            assert(parts@.map_values(|p: Vec<char>| p@)[1] == parts@[1]@);
        }
        values.push(string_from_chars(parts[1].as_slice()));
        i = i + 1;
    }
    assert(values@.map_values(|v: String| v@) =~= want);
    values
}

} // verus!
