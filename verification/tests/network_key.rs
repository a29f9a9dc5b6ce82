use roam::network_key::{DecodeError, DecodePolicy, NetworkKey};

#[test]
fn serialize_network_key() {
    let access_network_key = NetworkKey { access_key: vec![105, 199, 44], secret_key: None };
    assert!(access_network_key.to_string() == "accs");
    let secret_network_key =
        NetworkKey { access_key: vec![105, 199, 44], secret_key: Some(vec![177, 202, 237]) };
    assert!(secret_network_key.to_string() == "accs:scrt");
}

#[test]
fn deserialize_network_key() {
    let access_network_key = NetworkKey { access_key: vec![105, 199, 44], secret_key: None };
    let access_key = "accs";
    let access_output: NetworkKey = NetworkKey::from_str(access_key).unwrap();
    assert!(access_output == access_network_key);

    let secret_network_key =
        NetworkKey { access_key: vec![105, 199, 44], secret_key: Some(vec![177, 202, 237]) };
    let secret_key = "accs:scrt";
    let secret_output: NetworkKey = NetworkKey::from_str(secret_key).unwrap();
    assert!(secret_output == secret_network_key);
}

#[test]
#[should_panic]
fn deserialize_network_key_fail_1() {
    let access_key = "bad!";
    let _: NetworkKey = NetworkKey::from_str(access_key).unwrap();
}

#[test]
#[should_panic]
fn deserialize_network_key_fail_2() {
    let secret_key = "bad!:alsobad!";
    let _: NetworkKey = NetworkKey::from_str(secret_key).unwrap();
}

#[test]
fn decode_failure_is_malformed() {
    assert_eq!(NetworkKey::from_str("bad!"), Err(DecodeError::Malformed));
    assert_eq!(NetworkKey::from_str("bad!:alsobad!"), Err(DecodeError::Malformed));
    assert_eq!(
        NetworkKey::from_str_with("bad!", DecodePolicy::RejectMalformed),
        Err(DecodeError::Malformed)
    );
}

// A part of a token that is not base64 text is passed over, not reported: this
// is the lenient reading, which `from_str` keeps. `from_str_with` offers the
// strict one.

#[test]
fn malformed_part_is_skipped() {
    let access_only = NetworkKey { access_key: vec![105, 199, 44], secret_key: None };
    let both = NetworkKey { access_key: vec![105, 199, 44], secret_key: Some(vec![177, 202, 237]) };
    assert_eq!(NetworkKey::from_str("bad!:accs"), Ok(access_only.clone()));
    assert_eq!(NetworkKey::from_str("accs:bad!"), Ok(access_only.clone()));
    assert_eq!(NetworkKey::from_str("accs:bad!:scrt"), Ok(both.clone()));
    assert_eq!(NetworkKey::from_str("bad!:accs:alsobad!:scrt"), Ok(both.clone()));
    assert_eq!(
        NetworkKey::from_str_with("bad!:accs", DecodePolicy::SkipMalformed),
        Ok(access_only)
    );
}

#[test]
fn malformed_part_is_rejected_on_demand() {
    let both = NetworkKey { access_key: vec![105, 199, 44], secret_key: Some(vec![177, 202, 237]) };
    let strict = DecodePolicy::RejectMalformed;
    assert_eq!(NetworkKey::from_str_with("accs:scrt", strict), Ok(both.clone()));
    assert_eq!(NetworkKey::from_str_with("bad!:accs", strict), Err(DecodeError::Malformed));
    assert_eq!(NetworkKey::from_str_with("accs:bad!", strict), Err(DecodeError::Malformed));
    assert_eq!(NetworkKey::from_str_with("accs:scrt:bad!", strict), Err(DecodeError::Malformed));
    assert_eq!(NetworkKey::from_str_with("accs:scrt:more", strict), Ok(both));
}

#[test]
fn parts_after_the_second_key_are_ignored() {
    let both = NetworkKey { access_key: vec![105, 199, 44], secret_key: Some(vec![177, 202, 237]) };
    assert_eq!(NetworkKey::from_str("accs:scrt:more"), Ok(both.clone()));
    assert_eq!(NetworkKey::from_str("accs:scrt:bad!"), Ok(both));
}

#[test]
fn empty_parts_are_empty_keys() {
    assert_eq!(NetworkKey::from_str(""), Ok(NetworkKey { access_key: vec![], secret_key: None }));
    assert_eq!(
        NetworkKey::from_str("accs:"),
        Ok(NetworkKey { access_key: vec![105, 199, 44], secret_key: Some(vec![]) })
    );
    assert_eq!(
        NetworkKey::from_str(":scrt"),
        Ok(NetworkKey { access_key: vec![], secret_key: Some(vec![177, 202, 237]) })
    );
}

#[test]
fn token_reads_back() {
    let keys = [
        NetworkKey { access_key: vec![], secret_key: None },
        NetworkKey { access_key: vec![], secret_key: Some(vec![]) },
        NetworkKey { access_key: vec![0], secret_key: None },
        NetworkKey { access_key: vec![105, 199, 44], secret_key: None },
        NetworkKey { access_key: vec![105, 199, 44], secret_key: Some(vec![177, 202, 237]) },
        NetworkKey { access_key: vec![255, 254], secret_key: Some(vec![251, 255, 191, 0]) },
        NetworkKey { access_key: (0..=255).collect(), secret_key: Some((0..=255).rev().collect()) },
    ];
    for key in keys {
        let token = key.to_string();
        assert_eq!(NetworkKey::from_str(&token), Ok(key.clone()), "{:?}", token);
        assert_eq!(
            NetworkKey::from_str_with(&token, DecodePolicy::RejectMalformed),
            Ok(key.clone()),
            "{:?}",
            token
        );
    }
}

#[test]
fn token_is_url_safe_without_padding() {
    let key = NetworkKey { access_key: vec![251, 255, 191], secret_key: Some(vec![255]) };
    assert_eq!(key.to_string(), "-_-_:_w");
}

#[test]
fn sizes_are_checked() {
    let key = NetworkKey { access_key: vec![105, 199, 44], secret_key: Some(vec![177, 202, 237]) };
    assert!(key.is_encodable());
    assert!(NetworkKey::is_token_size("accs:scrt"));
    assert!(NetworkKey::is_token_size(""));
}
