use universal_camera::discovery::{
    local_peer, parse_u16_text, resolved_peer, service_host_name, service_instance_name, service_properties,
    sorted_unique_texts, ResolvedServiceRecord,
};
use universal_camera::transfer::EphemeralPublicKey;

fn record() -> ResolvedServiceRecord {
    ResolvedServiceRecord {
        peer: Some("0123456789ab".into()),
        public_key: Some(format!("0123456789ab{}", "cd".repeat(26))),
        version: Some("1".into()),
        label: Some("  Studio A  ".into()),
        host: "camera.local.".into(),
        port: 49152,
        addresses: vec!["fe80::1".into(), "192.168.1.20".into(), "192.168.1.20".into(), "10.0.0.5".into()],
    }
}

#[test]
fn resolved_service_becomes_a_peer_with_sorted_unique_addresses() {
    let peer = resolved_peer(&record()).unwrap();
    assert_eq!(peer.ephemeral_id, "0123456789ab");
    assert_eq!(peer.public_key_hex.len(), 64);
    assert_eq!(peer.display_label.as_deref(), Some("Studio A"));
    assert_eq!(peer.host, "camera.local.");
    assert_eq!(peer.port, 49152);
    assert_eq!(peer.protocol_version, 1);
    assert_eq!(peer.addresses, vec!["10.0.0.5", "192.168.1.20", "fe80::1"]);
}

#[test]
fn services_without_a_valid_identity_are_ignored() {
    let mut short_id = record();
    short_id.peer = Some("0123456789a".into());
    assert!(resolved_peer(&short_id).is_none());
    let mut not_hex = record();
    not_hex.peer = Some("0123456789ag".into());
    assert!(resolved_peer(&not_hex).is_none());
    let mut other_key = record();
    other_key.public_key = Some("ab".repeat(32));
    assert!(resolved_peer(&other_key).is_none());
    let mut missing_key = record();
    missing_key.public_key = None;
    assert!(resolved_peer(&missing_key).is_none());
    let mut upper = record();
    upper.peer = Some("0123456789AB".into());
    upper.public_key = Some(format!("0123456789AB{}", "CD".repeat(26)));
    assert!(resolved_peer(&upper).is_some());
}

#[test]
fn services_of_other_protocols_ports_or_without_addresses_are_ignored() {
    for version in ["2", "x", "", "65536", "-1", " 1"] {
        let mut other = record();
        other.version = Some(version.into());
        assert!(resolved_peer(&other).is_none(), "version {version:?}");
    }
    let mut missing = record();
    missing.version = None;
    assert!(resolved_peer(&missing).is_none());
    for version in ["+1", "01"] {
        let mut same = record();
        same.version = Some(version.into());
        assert!(resolved_peer(&same).is_some(), "version {version:?}");
    }
    let mut no_port = record();
    no_port.port = 0;
    assert!(resolved_peer(&no_port).is_none());
    let mut no_addresses = record();
    no_addresses.addresses.clear();
    assert!(resolved_peer(&no_addresses).is_none());
}

#[test]
fn invalid_or_blank_labels_are_dropped_without_dropping_the_peer() {
    for label in [Some("bad\u{7}label"), Some("   "), Some("a label that is far longer than thirty-two chars"), None] {
        let mut service = record();
        service.label = label.map(String::from);
        assert_eq!(resolved_peer(&service).unwrap().display_label, None);
    }
}

#[test]
fn decimal_u16_text_follows_str_parse() {
    assert_eq!(parse_u16_text("65535"), Some(65535));
    assert_eq!(parse_u16_text("0007"), Some(7));
    assert_eq!(parse_u16_text("+7"), Some(7));
    assert_eq!(parse_u16_text("65536"), None);
    assert_eq!(parse_u16_text("99999999999"), None);
    assert_eq!(parse_u16_text("+"), None);
    assert_eq!(parse_u16_text(""), None);
    assert_eq!(parse_u16_text("-0"), None);
    assert_eq!(parse_u16_text("1 "), None);
    for text in ["0", "1", "+65535", "12a", "00065535", "065536"] {
        assert_eq!(parse_u16_text(text), text.parse::<u16>().ok(), "{text:?}");
    }
}

#[test]
fn address_lists_are_sorted_and_unique() {
    let v: Vec<String> = vec!["b".into(), "a".into(), "b".into(), "ab".into(), "a".into()];
    assert_eq!(sorted_unique_texts(&v), vec!["a", "ab", "b"]);
    assert!(sorted_unique_texts(&Vec::new()).is_empty());
}

#[test]
fn advertised_identity_is_resolved_back_as_the_same_peer() {
    let mut bytes = [0u8; 32];
    for (index, byte) in bytes.iter_mut().enumerate() {
        *byte = (index as u8).wrapping_mul(37).wrapping_add(0xa5);
    }
    let local = local_peer(&EphemeralPublicKey { bytes }, Some("Studio".into()), 49152);
    assert_eq!(local.public_key_hex, bytes.iter().map(|b| format!("{b:02x}")).collect::<String>());
    assert_eq!(local.ephemeral_id, local.public_key_hex[..12]);
    assert_eq!(service_instance_name(&local), format!("ufc-{}", local.ephemeral_id));
    assert_eq!(service_host_name(&local), format!("ufc-{}.local.", local.ephemeral_id));
    let properties = service_properties(&local);
    let property = |key: &str| properties.iter().find(|(k, _)| k == key).map(|(_, v)| v.clone());
    assert_eq!(properties.len(), 4);
    assert_eq!(property("v").as_deref(), Some("1"));
    let record = ResolvedServiceRecord {
        peer: property("peer"),
        public_key: property("pk"),
        version: property("v"),
        label: property("label"),
        host: service_host_name(&local),
        port: local.port,
        addresses: vec!["192.168.1.7".into()],
    };
    let peer = resolved_peer(&record).unwrap();
    assert_eq!(peer.ephemeral_id, local.ephemeral_id);
    assert_eq!(peer.public_key_hex, local.public_key_hex);
    assert_eq!(peer.display_label, local.display_label);
    let unlabelled = local_peer(&EphemeralPublicKey { bytes }, None, 1);
    assert_eq!(service_properties(&unlabelled).len(), 3);
}
