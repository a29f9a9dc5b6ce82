//! The configuration of a network: its name, its key and its subnet; how one
//! is put together, and the record it is saved as.

use crate::ip_address::{address_of_text, address_text, AddressValue, IpAddress};
use crate::keygen::{generate_secret_key, is_generated, KeyGenError};
use crate::network_key::{
    token_key, token_text, DecodeError, DecodePolicy, KeyMaterial, NetworkKey,
};
use crate::numeral::{decimal_text, push_decimal};
use crate::outside::{json_string, json_string_text};
use crate::subnet::{max_prefix, string_to_ip_cidr, subnet_of_text, ParseError};
use vstd::prelude::*;
use vstd::string::*;

verus! {

/// What a network configuration holds.
pub struct ConfigValue {
    pub name: Seq<char>,
    pub key: KeyMaterial,
    pub network_addr: AddressValue,
    pub cidr: u8,
}

/// The internal representation of a network configuration.
#[derive(Debug)]
pub struct NetworkConfig {
    /// Name of the network.
    ///
    /// This can be anything arbitrary, however if a node knows two of the same network name,
    /// one of them might be appended with a number.
    pub name: String,
    /// Network key associated with this network.
    pub key: NetworkKey,
    /// Network address of the network's subnet.
    pub network_addr: IpAddress,
    /// Size of the network mask in CIDR representation.
    pub cidr: u8,
}

impl ConfigValue {
    /// The name is not empty, and the prefix length is in the range of the
    /// address's family.
    pub open spec fn wf(self) -> bool {
        self.name.len() > 0 && self.cidr <= max_prefix(self.network_addr)
    }
}

impl View for NetworkConfig {
    type V = ConfigValue;

    open spec fn view(&self) -> ConfigValue {
        ConfigValue {
            name: self.name@,
            key: self.key@,
            network_addr: self.network_addr@,
            cidr: self.cidr,
        }
    }
}

/// Why no configuration could be put together.
#[derive(Debug, Clone, Copy, PartialEq, Eq)]
pub enum AssembleError {
    /// The name of the network is empty.
    EmptyName,
    /// The subnet could not be read.
    Subnet(ParseError),
    /// No key could be made, for want of random numbers.
    RngUnavailable,
}

/// The subnet of a network for which none was given: `192.168.251.0/24`.
pub open spec fn default_subnet() -> (AddressValue, u8) {
    (AddressValue::V4(seq![192u8, 168u8, 251u8, 0u8]), 24u8)
}

/// Why no configuration is made of a name and the text of a subnet, whatever
/// the key, or `None` where one is: the name must not be empty, and the text
/// has to be a subnet or empty.
pub open spec fn refusal(name: Seq<char>, subnet_text: Seq<char>) -> Option<AssembleError> {
    if name.len() == 0 {
        Some(AssembleError::EmptyName)
    } else {
        match subnet_of_text(subnet_text) {
            Err(error) => Some(AssembleError::Subnet(error)),
            Ok(_) => None,
        }
    }
}

/// The subnet that a text stands for, the default subnet where the text is
/// empty.
pub open spec fn subnet_or_default(subnet_text: Seq<char>) -> (AddressValue, u8) {
    match subnet_of_text(subnet_text) {
        Ok(Some(subnet)) => subnet,
        _ => default_subnet(),
    }
}

/// The configuration made of a name, the text of a subnet and a key.
pub open spec fn assembled(name: Seq<char>, subnet_text: Seq<char>, key: KeyMaterial) -> Result<
    ConfigValue,
    AssembleError,
> {
    match refusal(name, subnet_text) {
        Some(error) => Err(error),
        None => Ok(
            ConfigValue {
                name,
                key,
                network_addr: subnet_or_default(subnet_text).0,
                cidr: subnet_or_default(subnet_text).1,
            },
        ),
    }
}

/// The view of the outcome of putting a configuration together.
pub open spec fn assembly_view(made: Result<NetworkConfig, AssembleError>) -> Result<
    ConfigValue,
    AssembleError,
> {
    match made {
        Ok(config) => Ok(config@),
        Err(error) => Err(error),
    }
}

/// Checks the name and reads the subnet of a configuration to be.
fn checked_subnet(name: &str, subnet_text: &str) -> (checked: Result<(IpAddress, u8), AssembleError>)
    ensures
        match checked {
            Ok((network_addr, cidr)) => refusal(name@, subnet_text@) is None && (
                network_addr@,
                cidr,
            ) == subnet_or_default(subnet_text@) && cidr <= max_prefix(network_addr@),
            Err(error) => refusal(name@, subnet_text@) == Some(error),
        },
{
    if name.is_empty() {
        return Err(AssembleError::EmptyName);
    }
    match string_to_ip_cidr(subnet_text) {
        Err(error) => Err(AssembleError::Subnet(error)),
        Ok(Some(subnet)) => Ok(subnet),
        Ok(None) => {
            let octets: [u8; 4] = [192, 168, 251, 0];
            assert(octets@ == seq![192u8, 168u8, 251u8, 0u8]);
            Ok((IpAddress::V4(octets), 24))
        },
    }
}

/// Puts a configuration together from a name, the text of a subnet and a
/// key that was made before.
pub fn assemble_with_key(name: &str, subnet_text: &str, key: NetworkKey) -> (made: Result<
    NetworkConfig,
    AssembleError,
>)
    ensures
        assembly_view(made) == assembled(name@, subnet_text@, key@),
        made matches Ok(config) ==> config@.wf(),
{
    match checked_subnet(name, subnet_text) {
        Ok((network_addr, cidr)) => Ok(
            NetworkConfig { name: name.to_owned(), key, network_addr, cidr },
        ),
        Err(error) => Err(error),
    }
}

/// Puts a configuration together from a name and the text of a subnet, with a
/// fresh key. The name and the subnet are checked first: no key is made for a
/// configuration that will not be. Where they pass, the outcome is the
/// configuration with a generated key, or `RngUnavailable`.
pub fn assemble(name: &str, subnet_text: &str) -> (made: Result<NetworkConfig, AssembleError>)
    ensures
        match refusal(name@, subnet_text@) {
            Some(error) => made == Err::<NetworkConfig, AssembleError>(error),
            None => match made {
                Ok(config) => is_generated(config.key@) && assembled(
                    name@,
                    subnet_text@,
                    config.key@,
                ) == Ok::<ConfigValue, AssembleError>(config@),
                Err(error) => error == AssembleError::RngUnavailable,
            },
        },
        made matches Ok(config) ==> config@.wf(),
{
    match checked_subnet(name, subnet_text) {
        Ok((network_addr, cidr)) => match generate_secret_key() {
            Ok(key) => Ok(NetworkConfig { name: name.to_owned(), key, network_addr, cidr }),
            Err(KeyGenError::RngUnavailable) => Err(AssembleError::RngUnavailable),
        },
        Err(error) => Err(error),
    }
}

/// Why a configuration could not be written as JSON.
#[derive(Debug, Clone, Copy, PartialEq, Eq)]
pub enum SerializeError {
    /// One of the strings of the record could not be written as a JSON string.
    Json,
}

/// The record that a configuration is saved as: the name, the token of the
/// key, the text of the network address, and the prefix length.
#[derive(Debug, Clone, PartialEq, Eq)]
pub struct ConfigRecord {
    pub name: String,
    pub key: String,
    pub network_addr: String,
    pub cidr: u8,
}

/// What a record holds.
pub struct RecordValue {
    pub name: Seq<char>,
    pub key: Seq<char>,
    pub network_addr: Seq<char>,
    pub cidr: u8,
}

impl View for ConfigRecord {
    type V = RecordValue;

    open spec fn view(&self) -> RecordValue {
        RecordValue {
            name: self.name@,
            key: self.key@,
            network_addr: self.network_addr@,
            cidr: self.cidr,
        }
    }
}

/// The record of a configuration.
pub open spec fn record_of(config: ConfigValue) -> RecordValue {
    RecordValue {
        name: config.name,
        key: token_text(config.key),
        network_addr: address_text(config.network_addr),
        cidr: config.cidr,
    }
}

/// The fields of a record as they stand in JSON: each of the three strings as
/// a JSON string, and the prefix length.
#[derive(Debug, Clone, PartialEq, Eq)]
pub struct JsonFields {
    pub name: String,
    pub key: String,
    pub network_addr: String,
    pub cidr: u8,
}

impl View for JsonFields {
    type V = RecordValue;

    open spec fn view(&self) -> RecordValue {
        RecordValue {
            name: self.name@,
            key: self.key@,
            network_addr: self.network_addr@,
            cidr: self.cidr,
        }
    }
}

/// The fields of a record as they stand in JSON.
pub open spec fn quoted(record: RecordValue) -> RecordValue {
    RecordValue {
        name: json_string_text(record.name),
        key: json_string_text(record.key),
        network_addr: json_string_text(record.network_addr),
        cidr: record.cidr,
    }
}

/// The JSON object of a record on one line, from its fields as they stand in
/// JSON: the four fields in the order `name`, `key`, `network_addr`, `cidr`,
/// the last of them as a decimal number.
pub open spec fn compact_json(fields: RecordValue) -> Seq<char> {
    "{\"name\":"@ + fields.name + ",\"key\":"@ + fields.key + ",\"network_addr\":"@
        + fields.network_addr + ",\"cidr\":"@ + decimal_text(fields.cidr as nat) + "}"@
}

/// The JSON object of a record with one field on a line, indented by two
/// spaces.
pub open spec fn pretty_json(fields: RecordValue) -> Seq<char> {
    "{\n  \"name\": "@ + fields.name + ",\n  \"key\": "@ + fields.key
        + ",\n  \"network_addr\": "@ + fields.network_addr + ",\n  \"cidr\": "@ + decimal_text(
        fields.cidr as nat,
    ) + "\n}"@
}

impl ConfigRecord {
    /// The fields of the record as they stand in JSON. The outcome is always
    /// `Ok`: every string can be written as a JSON string.
    pub fn quote(&self) -> (fields: Result<JsonFields, SerializeError>)
        ensures
            fields matches Ok(done) && done@ == quoted(self@),
    {
        let name = match json_string(self.name.as_str()) {
            Ok(json) => json,
            Err(_) => {
                return Err(SerializeError::Json);
            },
        };
        let key = match json_string(self.key.as_str()) {
            Ok(json) => json,
            Err(_) => {
                return Err(SerializeError::Json);
            },
        };
        let network_addr = match json_string(self.network_addr.as_str()) {
            Ok(json) => json,
            Err(_) => {
                return Err(SerializeError::Json);
            },
        };
        Ok(JsonFields { name, key, network_addr, cidr: self.cidr })
    }
}

impl JsonFields {
    /// The JSON object of the fields on one line.
    pub fn compact(&self) -> (json: String)
        ensures
            json@ == compact_json(self@),
    {
        let mut json = String::new();
        json.append("{\"name\":");
        json.append(self.name.as_str());
        json.append(",\"key\":");
        json.append(self.key.as_str());
        json.append(",\"network_addr\":");
        json.append(self.network_addr.as_str());
        json.append(",\"cidr\":");
        push_decimal(&mut json, self.cidr);
        json.append("}");
        assert(json@ == compact_json(self@));
        json
    }

    /// The JSON object of the fields over several lines.
    pub fn pretty(&self) -> (json: String)
        ensures
            json@ == pretty_json(self@),
    {
        let mut json = String::new();
        json.append("{\n  \"name\": ");
        json.append(self.name.as_str());
        json.append(",\n  \"key\": ");
        json.append(self.key.as_str());
        json.append(",\n  \"network_addr\": ");
        json.append(self.network_addr.as_str());
        json.append(",\n  \"cidr\": ");
        push_decimal(&mut json, self.cidr);
        json.append("\n}");
        assert(json@ == pretty_json(self@));
        json
    }
}

impl NetworkConfig {
    /// The record that the configuration is saved as. Nothing is lost in it:
    /// the key and the network address can be read back from their texts.
    pub fn to_record(&self) -> (record: ConfigRecord)
        requires
            self.key@.encodable(),
        ensures
            record@ == record_of(self@),
            token_key(record.key@, DecodePolicy::SkipMalformed) == Ok::<KeyMaterial, DecodeError>(
                self.key@,
            ),
            address_of_text(record.network_addr@) == Some(self.network_addr@),
    {
        ConfigRecord {
            name: self.name.clone(),
            key: self.key.to_string(),
            network_addr: self.network_addr.to_string(),
            cidr: self.cidr,
        }
    }

    /// Convert a NetworkConfig to JSON format, to be saved as a config file.
    /// The outcome is always `Ok`.
    pub fn to_json(&self) -> (written: Result<String, SerializeError>)
        requires
            self.key@.encodable(),
        ensures
            written matches Ok(json) && json@ == compact_json(quoted(record_of(self@))),
    {
        match self.to_record().quote() {
            Ok(fields) => Ok(fields.compact()),
            Err(error) => Err(error),
        }
    }

    /// Convert a NetworkConfig to JSON format over several lines, for a reader.
    /// The outcome is always `Ok`.
    pub fn to_pretty_json(&self) -> (written: Result<String, SerializeError>)
        requires
            self.key@.encodable(),
        ensures
            written matches Ok(json) && json@ == pretty_json(quoted(record_of(self@))),
    {
        match self.to_record().quote() {
            Ok(fields) => Ok(fields.pretty()),
            Err(error) => Err(error),
        }
    }
}

} // verus!
