//! The node's configuration: named text fields, checked and read into
//! typed values.
use vstd::prelude::*;
use crate::environment::now_timestamp;
use crate::errors::ConfigError;
use crate::text::{
    chars_of, parse_bool, parse_bool_chars, parse_i32_chars, parse_signed, parse_unsigned,
    parse_unsigned_chars, split_chars, split_on, string_from_chars, lemma_split_on_len,
};

verus! {

pub const PARAMETER_AMOUNT: usize = 9;

/// chrono's reading of `text` as a date and time in UTC (a relaxed form of
/// RFC 3339), as seconds since the Unix epoch; `None` when `text` is not one.
pub uninterp spec fn utc_datetime_timestamp(text: Seq<char>) -> Option<i64>;

/// Calls `str::parse::<chrono::DateTime<chrono::Utc>>` on `text`, then
/// `timestamp` on the result. Trusted: the contract only names the result,
/// which depends on the text alone.
#[verifier::external_body]
pub(crate) fn parse_utc_timestamp(text: &str) -> (r: Option<i64>)
    ensures
        r == utc_datetime_timestamp(text@),
{
    match text.parse::<chrono::DateTime<chrono::Utc>>() {
        Ok(date_time) => Some(date_time.timestamp()),
        Err(_) => None,
    }
}

/// The node's configuration.
#[derive(Debug)]
pub struct Config {
    pub version: i32,
    pub local_address: ([u8; 4], u16),
    pub begin_time: u32,
    pub log_path: String,
    pub headers_path: String,
    pub blocks_path: String,
    pub ipv6_enabled: bool,
    pub dns: Vec<(String, u16)>,
    pub external_addresses: Vec<([u8; 4], u16)>,
}

/// A configuration as plain values.
pub struct ConfigView {
    pub version: i32,
    pub local_address: (Seq<u8>, u16),
    pub begin_time: u32,
    pub log_path: Seq<char>,
    pub headers_path: Seq<char>,
    pub blocks_path: Seq<char>,
    pub ipv6_enabled: bool,
    pub dns: Seq<(Seq<char>, u16)>,
    pub external_addresses: Seq<(Seq<u8>, u16)>,
}

pub open spec fn dns_view(v: Seq<(String, u16)>) -> Seq<(Seq<char>, u16)> {
    v.map_values(|d: (String, u16)| (d.0@, d.1))
}

pub open spec fn addresses_view(v: Seq<([u8; 4], u16)>) -> Seq<(Seq<u8>, u16)> {
    v.map_values(|a: ([u8; 4], u16)| (a.0@, a.1))
}

impl View for Config {
    type V = ConfigView;

    open spec fn view(&self) -> ConfigView {
        ConfigView {
            version: self.version,
            local_address: (self.local_address.0@, self.local_address.1),
            begin_time: self.begin_time,
            log_path: self.log_path@,
            headers_path: self.headers_path@,
            blocks_path: self.blocks_path@,
            ipv6_enabled: self.ipv6_enabled,
            dns: dns_view(self.dns@),
            external_addresses: addresses_view(self.external_addresses@),
        }
    }
}

/// The fields as plain values.
pub open spec fn fields_view(v: Seq<(String, String)>) -> Seq<(Seq<char>, Seq<char>)> {
    v.map_values(|f: (String, String)| (f.0@, f.1@))
}

/// The value of the field `name`, or `ErrorParameterNotFound`.
pub open spec fn field_value(f: Seq<(Seq<char>, Seq<char>)>, name: Seq<char>) -> Result<
    Seq<char>,
    ConfigError,
>
    decreases f.len(),
{
    if f.len() == 0 {
        Err(ConfigError::ErrorParameterNotFound)
    } else if f[0].0 == name {
        Ok(f[0].1)
    } else {
        field_value(f.skip(1), name)
    }
}

/// An IPv4 address written as up to four decimal octets separated by
/// commas; missing octets are zero. More than four is an error.
pub open spec fn ip_parse(s: Seq<char>) -> Option<Seq<u8>> {
    let pieces = split_on(s, ',');
    if pieces.len() > 4 {
        None
    } else if forall|i: int| 0 <= i < pieces.len() ==> #[trigger] parse_unsigned(pieces[i], 255) is Some {
        Some(
            Seq::new(
                4,
                |i: int|
                    if i < pieces.len() {
                        parse_unsigned(pieces[i], 255)->0 as u8
                    } else {
                        0u8
                    },
            ),
        )
    } else {
        None
    }
}

/// An address `ip:port`; whatever follows a second colon is not read.
pub open spec fn address_parse(s: Seq<char>) -> Result<(Seq<u8>, u16), ConfigError> {
    let parts = split_on(s, ':');
    match ip_parse(parts[0]) {
        None => Err(ConfigError::ErrorParsingIP),
        Some(ip) => if parts.len() < 2 {
            Err(ConfigError::ErrorParsingPort)
        } else {
            match parse_unsigned(parts[1], 0xffff) {
                None => Err(ConfigError::ErrorParsingPort),
                Some(port) => Ok((ip, port as u16)),
            }
        },
    }
}

/// A DNS seed `name:port`.
pub open spec fn dns_parse(s: Seq<char>) -> Result<(Seq<char>, u16), ConfigError> {
    let parts = split_on(s, ':');
    if parts.len() < 2 {
        Err(ConfigError::ErrorParsingPort)
    } else {
        match parse_unsigned(parts[1], 0xffff) {
            None => Err(ConfigError::ErrorParsingPort),
            Some(port) => Ok((parts[0], port as u16)),
        }
    }
}

/// Each of `pieces` read as an address, in order; the first error wins.
pub open spec fn addresses_parse(pieces: Seq<Seq<char>>) -> Result<Seq<(Seq<u8>, u16)>, ConfigError>
    decreases pieces.len(),
{
    if pieces.len() == 0 {
        Ok(Seq::empty())
    } else {
        match addresses_parse(pieces.drop_last()) {
            Err(e) => Err(e),
            Ok(v) => match address_parse(pieces.last()) {
                Err(e) => Err(e),
                Ok(a) => Ok(v.push(a)),
            },
        }
    }
}

/// Each of `pieces` read as a DNS seed, in order; the first error wins.
pub open spec fn dns_list_parse(pieces: Seq<Seq<char>>) -> Result<Seq<(Seq<char>, u16)>, ConfigError>
    decreases pieces.len(),
{
    if pieces.len() == 0 {
        Ok(Seq::empty())
    } else {
        match dns_list_parse(pieces.drop_last()) {
            Err(e) => Err(e),
            Ok(v) => match dns_parse(pieces.last()) {
                Err(e) => Err(e),
                Ok(a) => Ok(v.push(a)),
            },
        }
    }
}

/// A list of addresses separated by semicolons; when its first piece is
/// empty the list is empty.
pub open spec fn address_vector_parse(s: Seq<char>) -> Result<Seq<(Seq<u8>, u16)>, ConfigError> {
    let pieces = split_on(s, ';');
    if pieces[0].len() == 0 {
        Ok(Seq::empty())
    } else {
        addresses_parse(pieces)
    }
}

/// A list of DNS seeds separated by semicolons; when its first piece is
/// empty the list is empty.
pub open spec fn dns_vector_parse(s: Seq<char>) -> Result<Seq<(Seq<char>, u16)>, ConfigError> {
    let pieces = split_on(s, ';');
    if pieces[0].len() == 0 {
        Ok(Seq::empty())
    } else {
        dns_list_parse(pieces)
    }
}

/// The text that chrono reads for the date `s`: midnight UTC of that day.
pub open spec fn date_text(s: Seq<char>) -> Seq<char> {
    s + seq!['T', '0', '0', ':', '0', '0', ':', '0', '0', 'Z']
}

/// The starting date `s` as a timestamp (cut to 32 bits); a date after `now`
/// is an error.
pub open spec fn begin_time_parse(s: Seq<char>, now: u32) -> Result<u32, ConfigError> {
    match utc_datetime_timestamp(date_text(s)) {
        None => Err(ConfigError::ErrorParsingDate),
        Some(t) => if t as u32 > now {
            Err(ConfigError::ErrorInvalidDate)
        } else {
            Ok(t as u32)
        },
    }
}

pub open spec fn version_key() -> Seq<char> {
    seq!['v', 'e', 'r', 's', 'i', 'o', 'n']
}

pub open spec fn local_address_key() -> Seq<char> {
    seq!['l', 'o', 'c', 'a', 'l', '_', 'a', 'd', 'd', 'r', 'e', 's', 's']
}

pub open spec fn begin_time_key() -> Seq<char> {
    seq!['s', 't', 'a', 'r', 't', 'i', 'n', 'g', '_', 'd', 'a', 't', 'e']
}

pub open spec fn log_path_key() -> Seq<char> {
    seq!['l', 'o', 'g', '_', 'f', 'i', 'l', 'e', '_', 'p', 'a', 't', 'h']
}

pub open spec fn headers_path_key() -> Seq<char> {
    seq!['h', 'e', 'a', 'd', 'e', 'r', 's', '_', 'f', 'i', 'l', 'e', '_', 'p', 'a', 't', 'h']
}

pub open spec fn blocks_path_key() -> Seq<char> {
    seq!['b', 'l', 'o', 'c', 'k', 's', '_', 'f', 'i', 'l', 'e', '_', 'p', 'a', 't', 'h']
}

pub open spec fn ipv6_key() -> Seq<char> {
    seq!['i', 'p', 'v', '6', '_', 'e', 'n', 'a', 'b', 'l', 'e', 'd']
}

pub open spec fn dns_key() -> Seq<char> {
    seq!['D', 'N', 'S']
}

pub open spec fn external_addr_key() -> Seq<char> {
    seq!['e', 'x', 't', 'e', 'r', 'n', 'a', 'l', '_', 'a', 'd', 'd', 'r']
}

/// Passes an error on, or applies `f`'s result.
pub open spec fn version_of(f: Seq<(Seq<char>, Seq<char>)>) -> Result<i32, ConfigError> {
    match field_value(f, version_key()) {
        Err(e) => Err(e),
        Ok(s) => match parse_signed(s, -0x8000_0000, 0x7fff_ffff) {
            None => Err(ConfigError::ErrorParsingVersion),
            Some(v) => Ok(v as i32),
        },
    }
}

pub open spec fn local_address_of(f: Seq<(Seq<char>, Seq<char>)>) -> Result<(Seq<u8>, u16), ConfigError> {
    match field_value(f, local_address_key()) {
        Err(e) => Err(e),
        Ok(s) => address_parse(s),
    }
}

pub open spec fn begin_time_of(f: Seq<(Seq<char>, Seq<char>)>, now: u32) -> Result<u32, ConfigError> {
    match field_value(f, begin_time_key()) {
        Err(e) => Err(e),
        Ok(s) => begin_time_parse(s, now),
    }
}

pub open spec fn ipv6_of(f: Seq<(Seq<char>, Seq<char>)>) -> Result<bool, ConfigError> {
    match field_value(f, ipv6_key()) {
        Err(e) => Err(e),
        Ok(s) => match parse_bool(s) {
            None => Err(ConfigError::ErrorParsingIPV6Bool),
            Some(b) => Ok(b),
        },
    }
}

pub open spec fn dns_of(f: Seq<(Seq<char>, Seq<char>)>) -> Result<Seq<(Seq<char>, u16)>, ConfigError> {
    match field_value(f, dns_key()) {
        Err(e) => Err(e),
        Ok(s) => dns_vector_parse(s),
    }
}

pub open spec fn external_addresses_of(f: Seq<(Seq<char>, Seq<char>)>) -> Result<Seq<(Seq<u8>, u16)>, ConfigError> {
    match field_value(f, external_addr_key()) {
        Err(e) => Err(e),
        Ok(s) => address_vector_parse(s),
    }
}

/// The configuration that the fields `f` give at the time `now`: each field
/// is read in the order version, local address, starting date, the three
/// paths, IPv6, DNS seeds and external addresses, and the first error wins;
/// with neither DNS seeds nor external addresses there is no peer to reach.
pub open spec fn config_parse(f: Seq<(Seq<char>, Seq<char>)>, now: u32) -> Result<ConfigView, ConfigError> {
    if version_of(f) is Err {
        Err(version_of(f)->Err_0)
    } else if local_address_of(f) is Err {
        Err(local_address_of(f)->Err_0)
    } else if begin_time_of(f, now) is Err {
        Err(begin_time_of(f, now)->Err_0)
    } else if field_value(f, log_path_key()) is Err {
        Err(field_value(f, log_path_key())->Err_0)
    } else if field_value(f, headers_path_key()) is Err {
        Err(field_value(f, headers_path_key())->Err_0)
    } else if field_value(f, blocks_path_key()) is Err {
        Err(field_value(f, blocks_path_key())->Err_0)
    } else if ipv6_of(f) is Err {
        Err(ipv6_of(f)->Err_0)
    } else if dns_of(f) is Err {
        Err(dns_of(f)->Err_0)
    } else if external_addresses_of(f) is Err {
        Err(external_addresses_of(f)->Err_0)
    } else if dns_of(f)->Ok_0.len() == 0 && external_addresses_of(f)->Ok_0.len() == 0 {
        Err(ConfigError::ErrorNoExternalAddressGiven)
    } else {
        Ok(
            ConfigView {
                version: version_of(f)->Ok_0,
                local_address: local_address_of(f)->Ok_0,
                begin_time: begin_time_of(f, now)->Ok_0,
                log_path: field_value(f, log_path_key())->Ok_0,
                headers_path: field_value(f, headers_path_key())->Ok_0,
                blocks_path: field_value(f, blocks_path_key())->Ok_0,
                ipv6_enabled: ipv6_of(f)->Ok_0,
                dns: dns_of(f)->Ok_0,
                external_addresses: external_addresses_of(f)->Ok_0,
            },
        )
    }
}

/// The configuration from exactly nine fields at the time `now`.
pub open spec fn config_from(f: Seq<(Seq<char>, Seq<char>)>, now: u32) -> Result<ConfigView, ConfigError> {
    if f.len() != PARAMETER_AMOUNT {
        Err(ConfigError::ErrorMismatchedQuantityOfParameters)
    } else {
        config_parse(f, now)
    }
}

/// An error among the first `n` addresses is the error of the whole list.
proof fn lemma_addresses_parse_err(s: Seq<Seq<char>>, n: nat, e: ConfigError)
    requires
        n <= s.len(),
        addresses_parse(s.take(n as int)) == Err::<Seq<(Seq<u8>, u16)>, ConfigError>(e),
    ensures
        addresses_parse(s) == Err::<Seq<(Seq<u8>, u16)>, ConfigError>(e),
    decreases s.len(),
{
    if s.len() == n {
        assert(s.take(n as int) =~= s);
    } else {
        assert(s.drop_last().take(n as int) =~= s.take(n as int));
        lemma_addresses_parse_err(s.drop_last(), n, e);
    }
}

/// An error among the first `n` DNS seeds is the error of the whole list.
proof fn lemma_dns_list_parse_err(s: Seq<Seq<char>>, n: nat, e: ConfigError)
    requires
        n <= s.len(),
        dns_list_parse(s.take(n as int)) == Err::<Seq<(Seq<char>, u16)>, ConfigError>(e),
    ensures
        dns_list_parse(s) == Err::<Seq<(Seq<char>, u16)>, ConfigError>(e),
    decreases s.len(),
{
    if s.len() == n {
        assert(s.take(n as int) =~= s);
    } else {
        assert(s.drop_last().take(n as int) =~= s.take(n as int));
        lemma_dns_list_parse_err(s.drop_last(), n, e);
    }
}

/// A result of the configuration as plain values.
pub open spec fn config_result_view(r: Result<Config, ConfigError>) -> Result<ConfigView, ConfigError> {
    match r {
        Ok(c) => Ok(c@),
        Err(e) => Err(e),
    }
}

/// The value of the field `field`; a missing field is an error.
fn get_handler(config_fields: &Vec<(String, String)>, field: &str) -> (r: Result<String, ConfigError>)
    ensures
        match r {
            Ok(s) => field_value(fields_view(config_fields@), field@) == Ok::<Seq<char>, ConfigError>(s@),
            Err(e) => field_value(fields_view(config_fields@), field@) == Err::<Seq<char>, ConfigError>(e),
        },
{
    let key = String::from_str(field);
    let ghost fv = fields_view(config_fields@);
    assert(fv.skip(0) =~= fv);
    let mut i: usize = 0;
    while i < config_fields.len()
        invariant
            i <= config_fields@.len(),
            fv == fields_view(config_fields@),
            key@ == field@,
            field_value(fv, field@) == field_value(fv.skip(i as int), field@),
        decreases config_fields@.len() - i,
    {
        let ghost rest = fv.skip(i as int);
        assert(rest[0] == fv[i as int]);
        if config_fields[i].0 == key {
            return Ok(config_fields[i].1.clone());
        }
        assert(rest.skip(1) =~= fv.skip(i + 1));
        i = i + 1;
    }
    Err(ConfigError::ErrorParameterNotFound)
}

/// Reads the version.
pub(crate) fn parse_version(data: &[char]) -> (r: Result<i32, ConfigError>)
    ensures
        match r {
            Ok(v) => parse_signed(data@, -0x8000_0000, 0x7fff_ffff) == Some(v as int),
            Err(e) => parse_signed(data@, -0x8000_0000, 0x7fff_ffff) is None && e
                == ConfigError::ErrorParsingVersion,
        },
{
    match parse_i32_chars(data) {
        Some(v) => Ok(v),
        None => Err(ConfigError::ErrorParsingVersion),
    }
}

/// Reads a port.
pub(crate) fn parse_port(port: &[char]) -> (r: Result<u16, ConfigError>)
    ensures
        match r {
            Ok(v) => parse_unsigned(port@, 0xffff) == Some(v as nat),
            Err(e) => parse_unsigned(port@, 0xffff) is None && e == ConfigError::ErrorParsingPort,
        },
{
    match parse_unsigned_chars(port, 0xffff) {
        Some(v) => Ok(v as u16),
        None => Err(ConfigError::ErrorParsingPort),
    }
}

/// Reads the IPv6 switch.
fn parse_ipv6_enabled(data: &[char]) -> (r: Result<bool, ConfigError>)
    ensures
        match r {
            Ok(b) => parse_bool(data@) == Some(b),
            Err(e) => parse_bool(data@) is None && e == ConfigError::ErrorParsingIPV6Bool,
        },
{
    match parse_bool_chars(data) {
        Some(b) => Ok(b),
        None => Err(ConfigError::ErrorParsingIPV6Bool),
    }
}

/// Reads an IPv4 address (see `ip_parse`).
pub(crate) fn parse_ip_address(address: &[char]) -> (r: Result<[u8; 4], ConfigError>)
    ensures
        match r {
            Ok(a) => ip_parse(address@) == Some(a@),
            Err(e) => ip_parse(address@) is None && e == ConfigError::ErrorParsingIP,
        },
{
    let pieces = split_chars(address, ',');
    let ghost pv = pieces@.map_values(|p: Vec<char>| p@);
    assert(pv == split_on(address@, ','));
    if pieces.len() > 4 {
        return Err(ConfigError::ErrorParsingIP);
    }
    let mut local_host: [u8; 4] = [0; 4];
    let mut i: usize = 0;
    while i < pieces.len()
        invariant
            i <= pieces@.len() <= 4,
            pv == pieces@.map_values(|p: Vec<char>| p@),
            pv == split_on(address@, ','),
            local_host@.len() == 4,
            forall|j: int| 0 <= j < i ==> #[trigger] parse_unsigned(pv[j], 255) is Some,
            forall|j: int| 0 <= j < i ==> local_host@[j] == parse_unsigned(pv[j], 255)->0 as u8,
            forall|j: int| i <= j < 4 ==> local_host@[j] == 0,
        decreases pieces@.len() - i,
    {
        match parse_unsigned_chars(pieces[i].as_slice(), 255) {
            Some(v) => {
                local_host[i] = v as u8;
            },
            None => {
                assert(parse_unsigned(pv[i as int], 255) is None);
                return Err(ConfigError::ErrorParsingIP);
            },
        }
        i = i + 1;
    }
    proof {
        let expected = Seq::new(
            4,
            |k: int|
                if k < pv.len() {
                    parse_unsigned(pv[k], 255)->0 as u8
                } else {
                    0u8
                },
        );
        assert(local_host@ =~= expected);
    }
    Ok(local_host)
}

/// Reads an address `ip:port` (see `address_parse`).
fn parse_address(address: &[char]) -> (r: Result<([u8; 4], u16), ConfigError>)
    ensures
        match r {
            Ok(a) => address_parse(address@) == Ok::<(Seq<u8>, u16), ConfigError>((a.0@, a.1)),
            Err(e) => address_parse(address@) == Err::<(Seq<u8>, u16), ConfigError>(e),
        },
{
    let parts = split_chars(address, ':');
    proof {
        lemma_split_on_len(address@, ':');
    }
    let ghost pv = parts@.map_values(|p: Vec<char>| p@);
    let host = parse_ip_address(parts[0].as_slice())?;
    if parts.len() < 2 {
        return Err(ConfigError::ErrorParsingPort);
    }
    let port = parse_port(parts[1].as_slice())?;
    Ok((host, port))
}

/// Reads a DNS seed `name:port` (see `dns_parse`).
fn parse_dns(data: &[char]) -> (r: Result<(String, u16), ConfigError>)
    ensures
        match r {
            Ok(d) => dns_parse(data@) == Ok::<(Seq<char>, u16), ConfigError>((d.0@, d.1)),
            Err(e) => dns_parse(data@) == Err::<(Seq<char>, u16), ConfigError>(e),
        },
{
    let parts = split_chars(data, ':');
    let ghost pv = parts@.map_values(|p: Vec<char>| p@);
    if parts.len() < 2 {
        return Err(ConfigError::ErrorParsingPort);
    }
    let port = parse_port(parts[1].as_slice())?;
    Ok((string_from_chars(parts[0].as_slice()), port))
}

/// Reads a list of addresses (see `address_vector_parse`).
fn parse_address_vector(addresses: &[char]) -> (r: Result<Vec<([u8; 4], u16)>, ConfigError>)
    ensures
        match r {
            Ok(v) => address_vector_parse(addresses@) == Ok::<Seq<(Seq<u8>, u16)>, ConfigError>(
                addresses_view(v@),
            ),
            Err(e) => address_vector_parse(addresses@) == Err::<Seq<(Seq<u8>, u16)>, ConfigError>(
                e,
            ),
        },
{
    let pieces = split_chars(addresses, ';');
    proof {
        lemma_split_on_len(addresses@, ';');
    }
    let ghost pv = pieces@.map_values(|p: Vec<char>| p@);
    let mut result: Vec<([u8; 4], u16)> = Vec::new();
    if pieces[0].len() == 0 {
        assert(addresses_view(result@) =~= Seq::empty());
        return Ok(result);
    }
    assert(pv.take(0) =~= Seq::<Seq<char>>::empty());
    assert(addresses_view(result@) =~= Seq::empty());
    let mut i: usize = 0;
    while i < pieces.len()
        invariant
            i <= pieces@.len(),
            pv == pieces@.map_values(|p: Vec<char>| p@),
            pv == split_on(addresses@, ';'),
            pv[0].len() != 0,
            addresses_parse(pv.take(i as int)) == Ok::<Seq<(Seq<u8>, u16)>, ConfigError>(
                addresses_view(result@),
            ),
        decreases pieces@.len() - i,
    {
        assert(pv.take(i + 1).drop_last() =~= pv.take(i as int));
        assert(pv.take(i + 1).last() == pv[i as int]);
        let a = match parse_address(pieces[i].as_slice()) {
            Ok(a) => a,
            Err(e) => {
                proof {
                    lemma_addresses_parse_err(pv, (i + 1) as nat, e);
                }
                return Err(e);
            },
        };
        let ghost old_result = result@;
        let ghost av = (a.0@, a.1);
        result.push(a);
        i = i + 1;
        assert(addresses_view(result@) =~= addresses_view(old_result).push(av));
    }
    assert(pv.take(i as int) =~= pv);
    Ok(result)
}

/// Reads a list of DNS seeds (see `dns_vector_parse`).
fn parse_dns_vector(dns: &[char]) -> (r: Result<Vec<(String, u16)>, ConfigError>)
    ensures
        match r {
            Ok(v) => dns_vector_parse(dns@) == Ok::<Seq<(Seq<char>, u16)>, ConfigError>(
                dns_view(v@),
            ),
            Err(e) => dns_vector_parse(dns@) == Err::<Seq<(Seq<char>, u16)>, ConfigError>(e),
        },
{
    let pieces = split_chars(dns, ';');
    proof {
        lemma_split_on_len(dns@, ';');
    }
    let ghost pv = pieces@.map_values(|p: Vec<char>| p@);
    let mut result: Vec<(String, u16)> = Vec::new();
    if pieces[0].len() == 0 {
        assert(dns_view(result@) =~= Seq::empty());
        return Ok(result);
    }
    assert(pv.take(0) =~= Seq::<Seq<char>>::empty());
    assert(dns_view(result@) =~= Seq::empty());
    let mut i: usize = 0;
    while i < pieces.len()
        invariant
            i <= pieces@.len(),
            pv == pieces@.map_values(|p: Vec<char>| p@),
            pv == split_on(dns@, ';'),
            pv[0].len() != 0,
            dns_list_parse(pv.take(i as int)) == Ok::<Seq<(Seq<char>, u16)>, ConfigError>(
                dns_view(result@),
            ),
        decreases pieces@.len() - i,
    {
        assert(pv.take(i + 1).drop_last() =~= pv.take(i as int));
        assert(pv.take(i + 1).last() == pv[i as int]);
        let d = match parse_dns(pieces[i].as_slice()) {
            Ok(d) => d,
            Err(e) => {
                proof {
                    lemma_dns_list_parse_err(pv, (i + 1) as nat, e);
                }
                return Err(e);
            },
        };
        let ghost old_result = result@;
        let ghost dv = (d.0@, d.1);
        result.push(d);
        i = i + 1;
        assert(dns_view(result@) =~= dns_view(old_result).push(dv));
    }
    assert(pv.take(i as int) =~= pv);
    Ok(result)
}

/// Reads the date `line` as midnight UTC of that day, a timestamp cut to 32
/// bits.
fn parse_date(line: &String) -> (r: Result<u32, ConfigError>)
    ensures
        match utc_datetime_timestamp(date_text(line@)) {
            None => r == Err::<u32, ConfigError>(ConfigError::ErrorParsingDate),
            Some(t) => r == Ok::<u32, ConfigError>(t as u32),
        },
{
    let complete_date = line.clone().concat("T00:00:00Z");
    proof {
        reveal_strlit("T00:00:00Z");
        assert(complete_date@ =~= date_text(line@));
    }
    match parse_utc_timestamp(complete_date.as_str()) {
        Some(t) => Ok(t as u32),
        None => Err(ConfigError::ErrorParsingDate),
    }
}

impl Config {
    /// Reads the starting date and checks that it is not after `now`.
    pub fn _parse_date_at(data: &String, now: u32) -> (r: Result<u32, ConfigError>)
        ensures
            r == begin_time_parse(data@, now),
    {
        let begin_time = parse_date(data)?;
        if begin_time > now {
            return Err(ConfigError::ErrorInvalidDate);
        }
        Ok(begin_time)
    }

    /// Reads the starting date and checks that it is not in the future.
    pub fn _parse_date(data: &String) -> (r: Result<u32, ConfigError>)
        ensures
            exists|now: u32| r == begin_time_parse(data@, now),
    {
        let now = now_timestamp() as u32;
        Self::_parse_date_at(data, now)
    }

    /// The configuration that the fields give at the time `now` (see
    /// `config_parse`).
    pub fn _initialize_at(config_fields: &Vec<(String, String)>, now: u32) -> (r: Result<
        Config,
        ConfigError,
    >)
        ensures
            config_result_view(r) == config_parse(fields_view(config_fields@), now),
    {
        let ghost f = fields_view(config_fields@);
        proof {
            reveal_strlit("version");
            reveal_strlit("local_address");
            reveal_strlit("starting_date");
            reveal_strlit("log_file_path");
            reveal_strlit("headers_file_path");
            reveal_strlit("blocks_file_path");
            reveal_strlit("ipv6_enabled");
            reveal_strlit("DNS");
            reveal_strlit("external_addr");
            assert("version"@ =~= version_key());
            assert("local_address"@ =~= local_address_key());
            assert("starting_date"@ =~= begin_time_key());
            assert("log_file_path"@ =~= log_path_key());
            assert("headers_file_path"@ =~= headers_path_key());
            assert("blocks_file_path"@ =~= blocks_path_key());
            assert("ipv6_enabled"@ =~= ipv6_key());
            assert("DNS"@ =~= dns_key());
            assert("external_addr"@ =~= external_addr_key());
        }
        let text = get_handler(config_fields, "version")?;
        let version = parse_version(chars_of(text.as_str()).as_slice())?;
        let text = get_handler(config_fields, "local_address")?;
        let local_address = parse_address(chars_of(text.as_str()).as_slice())?;
        let text = get_handler(config_fields, "starting_date")?;
        let begin_time = Self::_parse_date_at(&text, now)?;
        let log_path = get_handler(config_fields, "log_file_path")?;
        let headers_path = get_handler(config_fields, "headers_file_path")?;
        let blocks_path = get_handler(config_fields, "blocks_file_path")?;
        let text = get_handler(config_fields, "ipv6_enabled")?;
        let ipv6_enabled = parse_ipv6_enabled(chars_of(text.as_str()).as_slice())?;
        let text = get_handler(config_fields, "DNS")?;
        let dns = parse_dns_vector(chars_of(text.as_str()).as_slice())?;
        let text = get_handler(config_fields, "external_addr")?;
        let external_addresses = parse_address_vector(chars_of(text.as_str()).as_slice())?;
        if dns.len() == 0 && external_addresses.len() == 0 {
            return Err(ConfigError::ErrorNoExternalAddressGiven);
        }
        Ok(
            Config {
                version,
                local_address,
                begin_time,
                log_path,
                headers_path,
                blocks_path,
                ipv6_enabled,
                dns,
                external_addresses,
            },
        )
    }

    /// The configuration that the fields give now.
    pub fn _initialize(config_fields: &Vec<(String, String)>) -> (r: Result<Config, ConfigError>)
        ensures
            exists|now: u32| config_result_view(r) == config_parse(fields_view(config_fields@), now),
    {
        let now = now_timestamp() as u32;
        Self::_initialize_at(config_fields, now)
    }

    /// The configuration from exactly nine fields, at the time `now` (see
    /// `config_from`).
    pub fn _from_at(config_fields: Vec<(String, String)>, now: u32) -> (r: Result<Config, ConfigError>)
        ensures
            config_result_view(r) == config_from(fields_view(config_fields@), now),
    {
        if config_fields.len() != PARAMETER_AMOUNT {
            return Err(ConfigError::ErrorMismatchedQuantityOfParameters);
        }
        Self::_initialize_at(&config_fields, now)
    }

    /// The configuration from exactly nine fields (one for each name, as a
    /// map holds them), read now: a starting date in the future is an error.
    pub fn _from(config_fields: Vec<(String, String)>) -> (r: Result<Config, ConfigError>)
        ensures
            exists|now: u32| config_result_view(r) == config_from(fields_view(config_fields@), now),
    {
        let now = now_timestamp() as u32;
        Self::_from_at(config_fields, now)
    }
}

/// The name a configuration file must end with.
pub open spec fn config_filename() -> Seq<char> {
    seq!['n', 'o', 'd', 'o', '.', 'c', 'o', 'n', 'f']
}

/// Whether the path names a configuration file: it ends with `nodo.conf`.
pub fn is_config_path(path: &str) -> (r: bool)
    ensures
        r == (path@.len() >= 9 && path@.skip(path@.len() - 9) == config_filename()),
{
    let chars = chars_of(path);
    let name = ['n', 'o', 'd', 'o', '.', 'c', 'o', 'n', 'f'];
    assert(name@ =~= config_filename());
    if chars.len() < 9 {
        return false;
    }
    let start = chars.len() - 9;
    assert(start + 9 == chars.len());
    let ghost tail = chars@.skip(start as int);
    let mut i: usize = 0;
    while i < 9
        invariant
            i <= 9,
            chars@.len() == start + 9,
            start + 9 <= usize::MAX,
            chars@ == path@,
            start == path@.len() - 9,
            name@ == config_filename(),
            tail == chars@.skip(start as int),
            forall|j: int| 0 <= j < i ==> tail[j] == name@[j],
        decreases 9 - i,
    {
        if chars[start + i] != name[i] {
            assert(tail[i as int] != config_filename()[i as int]);
            return false;
        }
        i = i + 1;
    }
    assert(tail =~= config_filename());
    true
}

/// The field that each line of a configuration file gives, the last line
/// first: the text before the line's first `=` and that after it up to the
/// next `=`.
pub open spec fn line_fields(lines: Seq<Seq<char>>) -> Seq<(Seq<char>, Seq<char>)> {
    Seq::new(
        lines.len(),
        |i: int|
            {
                let parts = split_on(lines[lines.len() - 1 - i], '=');
                (parts[0], parts[1])
            },
    )
}

/// Whether one of the fields has the name.
pub open spec fn has_field_named(fields: Seq<(Seq<char>, Seq<char>)>, name: Seq<char>) -> bool {
    exists|k: int| 0 <= k < fields.len() && (#[trigger] fields[k]).0 == name
}

/// The fields with each name kept once, where it first occurs.
pub open spec fn first_of_each_name(fields: Seq<(Seq<char>, Seq<char>)>) -> Seq<
    (Seq<char>, Seq<char>),
>
    decreases fields.len(),
{
    if fields.len() == 0 {
        Seq::empty()
    } else {
        let kept = first_of_each_name(fields.drop_last());
        if has_field_named(kept, fields.last().0) {
            kept
        } else {
            kept.push(fields.last())
        }
    }
}

/// The fields of the lines of a configuration file, as a map keyed by name
/// holds them: one field for each name, with the value of the last line that
/// gives that name.
pub open spec fn fields_of_lines(lines: Seq<Seq<char>>) -> Seq<(Seq<char>, Seq<char>)> {
    first_of_each_name(line_fields(lines))
}

/// No two of the fields have the same name.
pub open spec fn names_distinct(fields: Seq<(Seq<char>, Seq<char>)>) -> bool {
    forall|j: int, k: int|
        0 <= j < k < fields.len() ==> (#[trigger] fields[j]).0 != (#[trigger] fields[k]).0
}

/// Keeping the first field of each name leaves no name twice, and keeps a
/// field of every name that occurs.
pub proof fn lemma_first_of_each_name(fields: Seq<(Seq<char>, Seq<char>)>)
    ensures
        names_distinct(first_of_each_name(fields)),
        forall|name: Seq<char>|
            has_field_named(fields, name) <==> #[trigger] has_field_named(
                first_of_each_name(fields),
                name,
            ),
    decreases fields.len(),
{
    if fields.len() > 0 {
        let init = fields.drop_last();
        lemma_first_of_each_name(init);
        let kept = first_of_each_name(init);
        assert forall|name: Seq<char>|
            has_field_named(fields, name) <==> #[trigger] has_field_named(
                first_of_each_name(fields),
                name,
            ) by {
            if has_field_named(fields, name) {
                let k = choose|k: int| 0 <= k < fields.len() && (#[trigger] fields[k]).0 == name;
                if k < init.len() {
                    assert(init[k] == fields[k]);
                    assert(has_field_named(init, name));
                    assert(has_field_named(kept, name));
                    let m = choose|m: int| 0 <= m < kept.len() && (#[trigger] kept[m]).0 == name;
                    if !has_field_named(kept, fields.last().0) {
                        assert(kept.push(fields.last())[m] == kept[m]);
                    }
                } else if !has_field_named(kept, fields.last().0) {
                    assert(kept.push(fields.last())[kept.len() as int] == fields.last());
                }
            }
            if has_field_named(first_of_each_name(fields), name) {
                let out = first_of_each_name(fields);
                let m = choose|m: int| 0 <= m < out.len() && (#[trigger] out[m]).0 == name;
                if m < kept.len() {
                    assert(out[m] == kept[m]);
                    assert(has_field_named(kept, name));
                    let k = choose|k: int| 0 <= k < init.len() && (#[trigger] init[k]).0 == name;
                    assert(fields[k] == init[k]);
                } else {
                    assert(out[m] == fields.last());
                    assert(fields[fields.len() - 1] == fields.last());
                }
            }
        }
        if !has_field_named(kept, fields.last().0) {
            let out = kept.push(fields.last());
            assert forall|j: int, k: int| 0 <= j < k < out.len() implies (#[trigger] out[j]).0
                != (#[trigger] out[k]).0 by {
                if k == kept.len() {
                    assert(out[j] == kept[j]);
                    if out[j].0 == out[k].0 {
                        assert(has_field_named(kept, fields.last().0));
                    }
                } else {
                    assert(out[j] == kept[j] && out[k] == kept[k]);
                }
            }
        }
    }
}

/// The fields of the lines of a configuration file (see `fields_of_lines`);
/// every line holds an `=`. No name comes twice.
pub fn config_fields_from_lines(lines: &Vec<String>) -> (r: Vec<(String, String)>)
    requires
        forall|i: int| 0 <= i < lines@.len() ==> split_on((#[trigger] lines@[i])@, '=').len() >= 2,
    ensures
        r@.map_values(|e: (String, String)| (e.0@, e.1@)) == fields_of_lines(
            lines@.map_values(|l: String| l@),
        ),
        names_distinct(r@.map_values(|e: (String, String)| (e.0@, e.1@))),
{
    let ghost ls = lines@.map_values(|l: String| l@);
    let ghost raw = line_fields(ls);
    let mut fields: Vec<(String, String)> = Vec::new();
    let mut i: usize = lines.len();
    assert(raw.take(0) =~= Seq::<(Seq<char>, Seq<char>)>::empty());
    while i > 0
        invariant
            i <= lines@.len(),
            ls == lines@.map_values(|l: String| l@),
            raw == line_fields(ls),
            forall|k: int| 0 <= k < lines@.len() ==> split_on((#[trigger] lines@[k])@, '=').len() >= 2,
            fields@.map_values(|e: (String, String)| (e.0@, e.1@)) == first_of_each_name(
                raw.take(lines@.len() - i),
            ),
        decreases i,
    {
        let ghost done = raw.take(lines@.len() - i);
        i = i - 1;
        let chars = chars_of(lines[i].as_str());
        let parts = split_chars(chars.as_slice(), '=');
        proof {
            assert(ls[i as int] == lines@[i as int]@);
            assert(split_on(lines@[i as int]@, '=').len() >= 2);
            assert(parts@.map_values(|p: Vec<char>| p@)[0] == parts@[0]@);
            assert(parts@.map_values(|p: Vec<char>| p@)[1] == parts@[1]@);
        }
        let name = string_from_chars(parts[0].as_slice());
        let value = string_from_chars(parts[1].as_slice());
        let ghost next = raw.take(lines@.len() - i);
        proof {
            assert(next.drop_last() =~= done);
            assert(next.last() == (name@, value@));
        }
        let ghost fv = fields@.map_values(|e: (String, String)| (e.0@, e.1@));
        let mut seen = false;
        let mut k: usize = 0;
        while k < fields.len()
            invariant
                k <= fields@.len(),
                fv == fields@.map_values(|e: (String, String)| (e.0@, e.1@)),
                seen <==> exists|m: int| 0 <= m < k && (#[trigger] fv[m]).0 == name@,
            decreases fields@.len() - k,
        {
            if fields[k].0 == name {
                assert(fv[k as int].0 == name@);
                seen = true;
            }
            k = k + 1;
        }
        assert(seen == has_field_named(fv, name@));
        if !seen {
            fields.push((name, value));
            assert(fields@.map_values(|e: (String, String)| (e.0@, e.1@)) =~= fv.push(next.last()));
        }
    }
    assert(raw.take(lines@.len() as int) =~= raw);
    proof {
        lemma_first_of_each_name(raw);
    }
    fields
}

} // verus!
