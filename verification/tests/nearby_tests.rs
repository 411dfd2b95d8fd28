use universal_camera::nearby::{
    approval_identifiers, approval_unchanged, classify_transfer_failure, endpoint_text, find_offer_sender,
    incoming_offer_step, DiscoveredNearbyPeer, IncomingOfferStep, decode_public_key, encode_hex, local_capabilities,
    outgoing_connection_plan, outgoing_invitation, retryable_failure, transfer_failure_report, validate_display_label,
    NearbyApprovalDirection, NearbyLocalPeer, NearbyTransferFailureKind, OutgoingConnectionPlan,
    INVITATION_LIFETIME_MS,
};
use universal_camera::transfer::{EphemeralPublicKey, TransferState, TransportKind, MAX_CHUNK_BYTES, PROTOCOL_VERSION};

#[test]
fn display_label_is_trimmed_and_bounded() {
    assert_eq!(validate_display_label(Some("  Nearby Camera  ".into())).unwrap(), Some("Nearby Camera".into()));
    assert!(validate_display_label(Some("x".repeat(33))).is_err());
    assert!(validate_display_label(Some("bad\nlabel".into())).is_err());
}

#[test]
fn blank_label_is_no_label() {
    assert_eq!(validate_display_label(None), Ok(None));
    assert_eq!(validate_display_label(Some("   ".into())), Ok(None));
    assert_eq!(validate_display_label(Some("x".repeat(32))).unwrap(), Some("x".repeat(32)));
}

#[test]
fn hex_identity_encoding_is_stable() {
    assert_eq!(encode_hex(&[0, 1, 0xab, 0xff]), "0001abff");
}

#[test]
fn public_key_decoder_requires_exact_hex() {
    let value = "ab".repeat(32);
    assert_eq!(decode_public_key(&value).unwrap().bytes, [0xab; 32]);
    assert!(decode_public_key(&"ab".repeat(31)).is_err());
    assert!(decode_public_key(&format!("{}zz", "ab".repeat(31))).is_err());
}

#[test]
fn public_key_round_trips_through_hex() {
    let bytes: Vec<u8> = (0..32).map(|i| (i * 7 + 3) as u8).collect();
    let text = encode_hex(&bytes);
    assert_eq!(decode_public_key(&text).unwrap().bytes.to_vec(), bytes);
    assert_eq!(decode_public_key(&text.to_uppercase()).unwrap().bytes.to_vec(), bytes);
    let signed = format!("+f{}", "ab".repeat(31));
    assert!(decode_public_key(&signed).is_err());
    assert!(decode_public_key(&"+a".repeat(32)).is_err());
}

#[test]
fn transfer_failures_expose_only_safe_retry_categories() {
    for (message, expected, retryable) in [
        ("Io(\"connection reset by peer\")", NearbyTransferFailureKind::Disconnected, true),
        ("Io(\"operation timed out\")", NearbyTransferFailureKind::Timeout, true),
        ("ResumePrefixMismatch", NearbyTransferFailureKind::Integrity, false),
        ("InsufficientStorage", NearbyTransferFailureKind::Storage, false),
        ("InvitationExpired", NearbyTransferFailureKind::InvitationExpired, false),
        ("nearby transfer was cancelled", NearbyTransferFailureKind::Cancelled, false),
        ("unexpected control message", NearbyTransferFailureKind::Protocol, false),
    ] {
        let kind = classify_transfer_failure(message);
        assert_eq!(kind, expected);
        assert_eq!(retryable_failure(kind), retryable);
    }
}

#[test]
fn retry_is_offered_only_before_expiry_and_without_cancellation() {
    let error = "Io(\"connection reset by peer\")";
    assert_eq!(transfer_failure_report(error, false, Some(5), 10), (NearbyTransferFailureKind::Disconnected, true));
    assert_eq!(transfer_failure_report(error, true, Some(5), 10), (NearbyTransferFailureKind::Disconnected, false));
    assert_eq!(transfer_failure_report(error, false, Some(11), 10), (NearbyTransferFailureKind::Disconnected, false));
    assert_eq!(transfer_failure_report(error, false, None, 10), (NearbyTransferFailureKind::Disconnected, false));
    assert_eq!(transfer_failure_report("InsufficientStorage", false, Some(5), 10).1, false);
}

#[test]
fn local_capabilities_offer_the_local_network_with_resume() {
    let capabilities = local_capabilities();
    assert_eq!(capabilities.protocol_version, PROTOCOL_VERSION);
    assert_eq!(capabilities.transports, vec![TransportKind::LocalNetwork]);
    assert_eq!(capabilities.max_chunk_bytes, MAX_CHUNK_BYTES);
    assert!(capabilities.supports_resume);
}

#[test]
fn outgoing_connection_uses_the_prepared_session_or_a_retry() {
    let outgoing = NearbyApprovalDirection::Outgoing;
    let transferring = TransferState::Transferring { acknowledged_bytes: 4096 };
    assert_eq!(
        outgoing_connection_plan(NearbyApprovalDirection::Incoming, &TransferState::Negotiating, true),
        Err("outgoing nearby transfer is not locally approved")
    );
    assert_eq!(outgoing_connection_plan(outgoing, &TransferState::Negotiating, false), Ok(OutgoingConnectionPlan::Prepared));
    assert_eq!(outgoing_connection_plan(outgoing, &transferring, true), Ok(OutgoingConnectionPlan::Retry));
    assert_eq!(
        outgoing_connection_plan(outgoing, &transferring, false),
        Err("outgoing nearby transfer is not ready to reconnect")
    );
    assert_eq!(
        outgoing_connection_plan(outgoing, &TransferState::AwaitingApproval, true),
        Err("outgoing nearby transfer is not ready to reconnect")
    );
}

#[test]
fn approval_identifiers_come_from_the_random_bytes() {
    let random: [u8; 16] = [0x00, 0x01, 0x0a, 0xff, 0x10, 0x20, 0x7f, 0x80, 0xde, 0xad, 0xbe, 0xef, 0, 0, 0, 9];
    let (invitation_id, transfer_prefix) = approval_identifiers(&random);
    assert_eq!(invitation_id, "inv-00010aff10207f80deadbeef00000009");
    assert_eq!(transfer_prefix, "share-00010aff10207f80");
}

#[test]
fn outgoing_invitation_is_open_for_two_minutes() {
    let local = NearbyLocalPeer {
        ephemeral_id: "0123456789ab".into(),
        display_label: Some("Studio".into()),
        public_key_hex: "0123456789ab".repeat(5) + "cdef",
        port: 49152,
    };
    let invitation = outgoing_invitation("inv-1".into(), &local, "482913".into(), 5_000);
    assert_eq!(invitation.invitation_id, "inv-1");
    assert_eq!(invitation.sender.ephemeral_id, "0123456789ab");
    assert_eq!(invitation.sender.display_label.as_deref(), Some("Studio"));
    assert_eq!(invitation.confirmation_code, "482913");
    assert_eq!(invitation.expires_at_unix_ms, 125_000);
    assert_eq!(INVITATION_LIFETIME_MS, 120_000);
    let late = outgoing_invitation("inv-2".into(), &local, "000000".into(), u64::MAX - 5);
    assert_eq!(late.expires_at_unix_ms, u64::MAX);
}

#[test]
fn endpoints_bracket_ipv6_addresses() {
    assert_eq!(endpoint_text("192.168.1.20", 49152), "192.168.1.20:49152");
    assert_eq!(endpoint_text("fe80::1", 8080), "[fe80::1]:8080");
}

#[test]
fn approval_must_stand_until_the_peer_answers() {
    assert!(approval_unchanged(OutgoingConnectionPlan::Prepared, true, true, false));
    assert!(!approval_unchanged(OutgoingConnectionPlan::Prepared, true, false, true));
    assert!(!approval_unchanged(OutgoingConnectionPlan::Prepared, false, true, true));
    assert!(approval_unchanged(OutgoingConnectionPlan::Retry, true, false, true));
    assert!(!approval_unchanged(OutgoingConnectionPlan::Retry, true, true, false));
}

#[test]
fn incoming_offers_come_from_discovered_peers_with_matching_codes() {
    let key = EphemeralPublicKey { bytes: [0xab; 32] };
    let peer = |id: &str, key_hex: String| DiscoveredNearbyPeer {
        ephemeral_id: id.into(),
        display_label: None,
        public_key_hex: key_hex,
        host: "peer.local.".into(),
        addresses: vec!["10.0.0.2".into()],
        port: 49152,
        protocol_version: 1,
    };
    let peers = vec![
        peer("abababababab", "cd".repeat(32)),
        peer("0123456789ab", "ab".repeat(32)),
        peer("abababababab", "ab".repeat(32)),
    ];
    assert_eq!(find_offer_sender(&peers, "abababababab", &key), Some(2));
    assert_eq!(find_offer_sender(&peers, "ffffffffffff", &key), None);
    assert_eq!(incoming_offer_step("123456", "654321", true), Err("incoming offer confirmation transcript does not match"));
    assert_eq!(incoming_offer_step("123456", "123456", true), Ok(IncomingOfferStep::RetryApproval));
    assert_eq!(incoming_offer_step("123456", "123456", false), Ok(IncomingOfferStep::NewApproval));
}
