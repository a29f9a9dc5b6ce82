use roam::ip_address::IpAddress;
use roam::keygen::{generate_secret_key, keypair_from_seed};
use roam::network_config::{
    assemble, assemble_with_key, AssembleError, ConfigRecord, NetworkConfig,
};
use roam::network_key::NetworkKey;
use roam::subnet::{string_to_ip_cidr, ParseError};

#[test]
fn generate_network_key_with_rng() {
    let input = generate_secret_key().unwrap();
    let serialized = input.to_string();
    let output: NetworkKey = NetworkKey::from_str(&serialized).unwrap();
    assert!(input == output);
}

#[test]
fn serialize_network_config_v4() {
    let (ip, cidr) = string_to_ip_cidr("192.168.1.1/24").unwrap().unwrap();
    let access_network_key = NetworkKey { access_key: vec![105, 199, 44], secret_key: None };
    let input = NetworkConfig {
        name: "TestName".to_string(),
        key: access_network_key,
        network_addr: ip,
        cidr: cidr,
    };
    let json = input.to_json().unwrap();
    let expected_json =
        r#"{"name":"TestName","key":"accs","network_addr":"192.168.1.1","cidr":24}"#;
    assert!(json == expected_json);
}

#[test]
fn serialize_network_config_v6() {
    let (ip, cidr) = string_to_ip_cidr("fe80::1/64").unwrap().unwrap();
    let access_network_key = NetworkKey { access_key: vec![105, 199, 44], secret_key: None };
    let input = NetworkConfig {
        name: "TestName".to_string(),
        key: access_network_key,
        network_addr: ip,
        cidr: cidr,
    };
    let json = input.to_json().unwrap();
    println!("{}", json);
    let expected_json = r#"{"name":"TestName","key":"accs","network_addr":"fe80::1","cidr":64}"#;
    assert!(json == expected_json);
}

#[test]
fn assemble_rejects_empty_name() {
    assert_eq!(assemble("", "192.168.1.1/24").err(), Some(AssembleError::EmptyName));
    assert_eq!(assemble("", "nonsense").err(), Some(AssembleError::EmptyName));
    let key = NetworkKey { access_key: vec![105, 199, 44], secret_key: None };
    assert_eq!(assemble_with_key("", "", key).err(), Some(AssembleError::EmptyName));
}

#[test]
fn assemble_hands_on_subnet_errors() {
    assert_eq!(
        assemble("net", "192.168.1.1/64").err(),
        Some(AssembleError::Subnet(ParseError::PrefixOutOfRange))
    );
    assert_eq!(
        assemble("net", "192.168.1.1").err(),
        Some(AssembleError::Subnet(ParseError::MissingField))
    );
    assert_eq!(
        assemble("net", "nonsense/24").err(),
        Some(AssembleError::Subnet(ParseError::InvalidAddress))
    );
    assert_eq!(
        assemble("net", "fe80::1/x").err(),
        Some(AssembleError::Subnet(ParseError::InvalidPrefix))
    );
}

#[test]
fn assemble_takes_default_subnet() {
    let config = assemble("net", "").unwrap();
    assert_eq!(config.name, "net");
    assert_eq!(config.network_addr, IpAddress::V4([192, 168, 251, 0]));
    assert_eq!(config.cidr, 24);
    assert_eq!(config.key.access_key.len(), 32);
    assert_eq!(config.key.secret_key.as_ref().map(|secret| secret.len()), Some(64));
}

#[test]
fn assemble_takes_given_subnet_and_key() {
    let key = NetworkKey { access_key: vec![105, 199, 44], secret_key: Some(vec![177, 202, 237]) };
    let config = assemble_with_key("TestName", "fe80::1/64", key.clone()).unwrap();
    assert_eq!(config.name, "TestName");
    assert_eq!(config.key, key);
    assert_eq!(config.network_addr, IpAddress::V6([0xfe80, 0, 0, 0, 0, 0, 0, 1]));
    assert_eq!(config.cidr, 64);
    let record = config.to_record();
    assert_eq!(
        record,
        ConfigRecord {
            name: "TestName".to_string(),
            key: "accs:scrt".to_string(),
            network_addr: "fe80::1".to_string(),
            cidr: 64,
        }
    );
}

#[test]
fn json_strings_are_escaped() {
    let config = NetworkConfig {
        name: "a \"b\"\\\n\u{1}é".to_string(),
        key: NetworkKey { access_key: vec![105, 199, 44], secret_key: Some(vec![177, 202, 237]) },
        network_addr: IpAddress::V4([10, 0, 0, 0]),
        cidr: 8,
    };
    assert_eq!(
        config.to_json().unwrap(),
        "{\"name\":\"a \\\"b\\\"\\\\\\n\\u0001é\",\"key\":\"accs:scrt\",\"network_addr\":\"10.0.0.0\",\"cidr\":8}"
    );
}

#[test]
fn pretty_json_has_a_field_on_each_line() {
    let config = NetworkConfig {
        name: "TestName".to_string(),
        key: NetworkKey { access_key: vec![105, 199, 44], secret_key: None },
        network_addr: IpAddress::V4([192, 168, 1, 1]),
        cidr: 24,
    };
    assert_eq!(
        config.to_pretty_json().unwrap(),
        "{\n  \"name\": \"TestName\",\n  \"key\": \"accs\",\n  \"network_addr\": \"192.168.1.1\",\n  \"cidr\": 24\n}"
    );
}

#[test]
fn keypair_is_made_from_the_seed() {
    let seed = [7u8; 32];
    let first = keypair_from_seed(&seed);
    let second = keypair_from_seed(&seed);
    assert_eq!(first, second);
    assert_eq!(first.access_key.len(), 32);
    let secret = first.secret_key.clone().unwrap();
    assert_eq!(secret.len(), 64);
    assert_ne!(first, keypair_from_seed(&[8u8; 32]));
    assert_ne!(first.access_key, seed.to_vec());
}

#[test]
fn generated_keys_differ() {
    let first = generate_secret_key().unwrap();
    let second = generate_secret_key().unwrap();
    assert_ne!(first, second);
}
