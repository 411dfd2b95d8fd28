use universal_camera::crypto::sha256_hex;
use universal_camera::session::{EncryptedChunkCodec, EphemeralKeyPair};
use universal_camera::transfer::{
    Invitation, MetadataPolicy, PeerCapabilities, PeerIdentity, ResumeCheckpoint, SharedMediaType, TransferError,
    TransferManifest, TransferSession, TransferState, TransportKind, MIN_CHUNK_BYTES, PROTOCOL_VERSION,
};
use universal_camera::transport::{
    check_partial_file, check_received_content, check_write, check_resume_checkpoint, check_resume_prefix, check_source_length,
    receive_resume_position, ReceiveLedger, ReceiverProgress, ReceiverStep, SenderProgress, TransportLifecycleState,
};
use universal_camera::wire::{
    read_wire_message, wire_payload_length, write_wire_message, PeerWireMessage, TransferCancelReason,
};

fn session() -> TransferSession {
    TransferSession::new(
        Invitation {
            invitation_id: "invite-1".into(),
            sender: PeerIdentity { ephemeral_id: "session-peer-a".into(), display_label: None },
            confirmation_code: "482913".into(),
            expires_at_unix_ms: 10_000,
        },
        TransferManifest {
            schema_version: PROTOCOL_VERSION,
            transfer_id: "transfer-1".into(),
            media_type: SharedMediaType::Photo,
            file_name: "UFC-photo.jpg".into(),
            byte_length: 100_000,
            chunk_size: MIN_CHUNK_BYTES,
            sha256_hex: "ab".repeat(32),
            metadata_policy: MetadataPolicy::StripLocation,
        },
    )
    .unwrap()
}

fn capabilities(transports: Vec<TransportKind>) -> PeerCapabilities {
    PeerCapabilities { protocol_version: PROTOCOL_VERSION, transports, max_chunk_bytes: 256 * 1024, supports_resume: true }
}

#[test]
fn transfer_requires_approval_transport_and_content_verification() {
    let mut transfer = session();
    transfer.approve("482913", 5_000).unwrap();
    let peers = capabilities(vec![TransportKind::BleControl, TransportKind::LocalNetwork]);
    transfer.negotiate(&peers, &peers).unwrap();
    transfer.acknowledge(50_000).unwrap();
    transfer.acknowledge(100_000).unwrap();
    transfer.finalize(100_000, &"AB".repeat(32)).unwrap();
    assert_eq!(transfer.state, TransferState::Finalized);
}

#[test]
fn manifest_rejects_path_traversal() {
    let mut transfer = session();
    transfer.manifest.file_name = "../escape.jpg".into();
    assert_eq!(transfer.manifest.validate(), Err(TransferError::UnsafeFileName));
}

#[test]
fn ble_only_peers_cannot_start_asset_transport() {
    let mut transfer = session();
    transfer.approve("482913", 5_000).unwrap();
    let peers = capabilities(vec![TransportKind::BleControl]);
    assert_eq!(transfer.negotiate(&peers, &peers), Err(TransferError::NoHighBandwidthTransport));
}

#[test]
fn acknowledgement_cannot_skip_past_asset_or_move_backward() {
    let mut transfer = session();
    transfer.approve("482913", 5_000).unwrap();
    let peers = capabilities(vec![TransportKind::LocalNetwork]);
    transfer.negotiate(&peers, &peers).unwrap();
    transfer.acknowledge(50_000).unwrap();
    assert_eq!(transfer.acknowledge(49_999), Err(TransferError::InvalidAcknowledgement));
    assert_eq!(transfer.acknowledge(100_001), Err(TransferError::InvalidAcknowledgement));
}

#[test]
fn hash_mismatch_fails_instead_of_publishing() {
    let mut transfer = session();
    transfer.approve("482913", 5_000).unwrap();
    let peers = capabilities(vec![TransportKind::LocalNetwork]);
    transfer.negotiate(&peers, &peers).unwrap();
    transfer.acknowledge(100_000).unwrap();
    assert_eq!(transfer.finalize(100_000, &"cd".repeat(32)), Err(TransferError::ContentVerificationFailed));
    assert!(matches!(transfer.state, TransferState::Failed { .. }));
}

#[test]
fn approval_rejects_wrong_code_and_expired_invitation() {
    let mut transfer = session();
    assert_eq!(transfer.approve("000000", 5_000), Err(TransferError::ConfirmationMismatch));
    assert_eq!(transfer.approve("482913", 10_001), Err(TransferError::InvitationExpired));
    assert_eq!(transfer.state, TransferState::AwaitingApproval);
    transfer.approve("482913", 10_000).unwrap();
    assert_eq!(transfer.state, TransferState::Negotiating);
    assert_eq!(transfer.approve("482913", 5_000), Err(TransferError::InvalidState));
}

#[test]
fn negotiation_picks_the_smallest_chunk_and_shared_resume() {
    let mut transfer = session();
    transfer.manifest.chunk_size = 1 << 20;
    transfer.approve("482913", 5_000).unwrap();
    let local = capabilities(vec![TransportKind::PeerToPeerWifi, TransportKind::LocalNetwork]);
    let mut remote = capabilities(vec![TransportKind::LocalNetwork]);
    remote.supports_resume = false;
    transfer.negotiate(&local, &remote).unwrap();
    assert_eq!(transfer.negotiated_transport, Some(TransportKind::LocalNetwork));
    assert_eq!(transfer.negotiated_chunk_bytes, Some(256 * 1024));
    assert!(!transfer.negotiated_resume);
    assert_eq!(transfer.state, TransferState::Transferring { acknowledged_bytes: 0 });
}

#[test]
fn cancel_is_refused_after_finalization() {
    let mut transfer = session();
    transfer.cancel().unwrap();
    assert_eq!(transfer.state, TransferState::Cancelled);
    assert_eq!(transfer.cancel(), Err(TransferError::InvalidState));
}

#[test]
fn ephemeral_handshake_binds_code_keys_and_transfer_manifest() {
    let mut transfer = session();
    let sender = EphemeralKeyPair::from_secret_bytes([0x11; 32]).unwrap();
    let receiver = EphemeralKeyPair::from_secret_bytes([0x22; 32]).unwrap();
    let sender_public = sender.public_key();
    let receiver_public = receiver.public_key();
    let confirmation_code = sender
        .confirmation_code(
            receiver_public,
            &transfer.invitation.invitation_id,
            &transfer.invitation.sender.ephemeral_id,
            &transfer.manifest,
        )
        .unwrap();
    assert_eq!(
        receiver
            .confirmation_code(
                sender_public,
                &transfer.invitation.invitation_id,
                &transfer.invitation.sender.ephemeral_id,
                &transfer.manifest,
            )
            .unwrap(),
        confirmation_code
    );
    transfer.invitation.confirmation_code = confirmation_code.clone();
    let sender_secrets = sender.agree(receiver_public, &transfer.invitation, &confirmation_code, &transfer.manifest).unwrap();
    let receiver_secrets =
        receiver.agree(sender_public, &transfer.invitation, &confirmation_code, &transfer.manifest).unwrap();
    let sender_codec = sender_secrets.into_chunk_codec(&transfer.manifest).unwrap();
    let receiver_codec = receiver_secrets.into_chunk_codec(&transfer.manifest).unwrap();
    let plaintext = vec![0x5a; MIN_CHUNK_BYTES as usize];
    let frame = sender_codec.encrypt(0, &plaintext).unwrap();
    assert_eq!(receiver_codec.decrypt(&frame).unwrap(), plaintext);

    let wrong_code_key = EphemeralKeyPair::from_secret_bytes([0x33; 32]).unwrap();
    assert!(matches!(
        wrong_code_key.agree(sender_public, &transfer.invitation, "000000", &transfer.manifest),
        Err(TransferError::KeyAgreementContextMismatch)
    ));
    assert!(matches!(EphemeralKeyPair::from_secret_bytes([0; 32]), Err(TransferError::InvalidEphemeralKey)));

    let mut other_manifest = transfer.manifest.clone();
    other_manifest.transfer_id = "transfer-other".into();
    let other_sender = EphemeralKeyPair::from_secret_bytes([0x44; 32]).unwrap();
    let other_receiver = EphemeralKeyPair::from_secret_bytes([0x55; 32]).unwrap();
    let other_sender_public = other_sender.public_key();
    let other_receiver_public = other_receiver.public_key();
    let other_confirmation = other_sender
        .confirmation_code(
            other_receiver_public,
            &transfer.invitation.invitation_id,
            &transfer.invitation.sender.ephemeral_id,
            &other_manifest,
        )
        .unwrap();
    let mut other_invitation = transfer.invitation.clone();
    other_invitation.confirmation_code = other_confirmation.clone();
    let other_codec = other_receiver
        .agree(other_sender_public, &other_invitation, &other_confirmation, &other_manifest)
        .unwrap()
        .into_chunk_codec(&other_manifest)
        .unwrap();
    let other_frame = other_sender
        .agree(other_receiver_public, &other_invitation, &other_confirmation, &other_manifest)
        .unwrap()
        .into_chunk_codec(&other_manifest)
        .unwrap()
        .encrypt(0, &vec![0x5a; MIN_CHUNK_BYTES as usize])
        .unwrap();
    assert!(matches!(receiver_codec.decrypt(&other_frame), Err(TransferError::InvalidEncryptedChunk)));
    assert!(other_codec.decrypt(&other_frame).is_ok());
}

#[test]
fn confirmation_code_is_six_digits_and_refuses_own_key() {
    let transfer = session();
    let a = EphemeralKeyPair::from_secret_bytes([0x11; 32]).unwrap();
    let b = EphemeralKeyPair::from_secret_bytes([0x22; 32]).unwrap();
    let code = a.confirmation_code(b.public_key(), "invite-1", "session-peer-a", &transfer.manifest).unwrap();
    assert_eq!(code.len(), 6);
    assert!(code.bytes().all(|c| c.is_ascii_digit()));
    assert!(matches!(
        a.confirmation_code(a.public_key(), "invite-1", "session-peer-a", &transfer.manifest),
        Err(TransferError::InvalidEphemeralKey)
    ));
    let generated = EphemeralKeyPair::generate().unwrap();
    assert_ne!(generated.public_key(), a.public_key());
}

#[test]
fn encrypted_chunks_authenticate_offsets_and_content() {
    let transfer = session();
    let codec = EncryptedChunkCodec::new([0x41; 32], [0x27; 16], &transfer.manifest).unwrap();
    let plaintext: Vec<u8> = (0..MIN_CHUNK_BYTES).map(|i| (i % 251) as u8).collect();
    let chunk = codec.encrypt(0, &plaintext).unwrap();
    assert_eq!(chunk.ciphertext.len(), plaintext.len() + 16);
    assert_eq!(codec.decrypt(&chunk).unwrap(), plaintext);
    let mut tampered = chunk.clone();
    tampered.ciphertext[0] ^= 0x80;
    assert_eq!(codec.decrypt(&tampered), Err(TransferError::ChunkAuthenticationFailed));
    let mut moved = chunk.clone();
    moved.offset = 1;
    assert_eq!(codec.decrypt(&moved), Err(TransferError::ChunkAuthenticationFailed));
    assert_eq!(codec.encrypt(99_999, &plaintext), Err(TransferError::InvalidEncryptedChunk));
    assert_eq!(codec.encrypt(0, &[]), Err(TransferError::InvalidEncryptedChunk));
}

#[test]
fn wire_messages_round_trip_and_oversized_frames_are_refused() {
    let transfer = session();
    let codec = EncryptedChunkCodec::new([0x61; 32], [0x19; 16], &transfer.manifest).unwrap();
    let encrypted = codec.encrypt(0, &vec![0x7c; MIN_CHUNK_BYTES as usize]).unwrap();
    let messages = vec![
        PeerWireMessage::EncryptedChunk(encrypted),
        PeerWireMessage::ResumeCheckpoint(ResumeCheckpoint {
            transfer_id: "transfer-1".into(),
            persisted_bytes: MIN_CHUNK_BYTES as u64,
            prefix_sha256: "ab".repeat(32),
        }),
        PeerWireMessage::DurableAck { transfer_id: "transfer-1".into(), persisted_bytes: MIN_CHUNK_BYTES as u64 },
        PeerWireMessage::Cancel { transfer_id: "transfer-1".into(), reason: TransferCancelReason::Timeout },
    ];
    for message in messages {
        let frame = write_wire_message(&message).unwrap();
        assert_eq!(&frame[..4], b"UFC1");
        let announced = wire_payload_length(&frame[..9]).unwrap();
        assert_eq!(frame.len(), 9 + announced);
        assert_eq!(read_wire_message(&frame).unwrap(), message);
    }
    let mut oversized = b"UFC1".to_vec();
    oversized.push(1);
    oversized.extend_from_slice(&((4 * 1024 * 1024 + 512 + 1) as u32).to_be_bytes());
    assert_eq!(wire_payload_length(&oversized), Err(TransferError::WireFrameTooLarge));
    let mut bad_magic = oversized.clone();
    bad_magic[0] = b'X';
    assert_eq!(wire_payload_length(&bad_magic), Err(TransferError::InvalidWireMessage));
}

fn receive_fixture(data: &[u8]) -> TransferSession {
    let mut transfer = session();
    transfer.manifest.byte_length = data.len() as u64;
    transfer.manifest.chunk_size = MIN_CHUNK_BYTES;
    transfer.manifest.sha256_hex = sha256_hex(data);
    transfer.approve("482913", 5_000).unwrap();
    let peers = capabilities(vec![TransportKind::LocalNetwork]);
    transfer.negotiate(&peers, &peers).unwrap();
    transfer
}

fn exchange(sender: &mut SenderProgress, receiver: &mut ReceiverProgress, data: &[u8], durable: &mut Vec<u8>) -> bool {
    match sender.next_chunk_range().unwrap() {
        None => false,
        Some((offset, length)) => {
            let plaintext = &data[offset as usize..offset as usize + length];
            let chunk = sender.next_chunk(plaintext).unwrap();
            match receiver.accept(&chunk).unwrap() {
                ReceiverStep::Persist { offset, plaintext } => {
                    assert_eq!(offset as usize, durable.len());
                    durable.extend_from_slice(&plaintext);
                    let ack = receiver.record_persisted(offset, plaintext.len());
                    sender.accept_ack(&ack).unwrap();
                }
                ReceiverStep::Cancelled => panic!("unexpected cancel"),
            }
            true
        }
    }
}

#[test]
fn transport_lifecycle_resumes_after_disconnect_and_completes() {
    let data: Vec<u8> = (0..30_000).map(|index| (index % 239) as u8).collect();
    let mut session = receive_fixture(&data);
    let key = [0x71; 32];
    let prefix = [0x29; 16];

    let cancel_codec = EncryptedChunkCodec::new([0x72; 32], [0x30; 16], &session.manifest).unwrap();
    let mut cancelled = SenderProgress::open(&session, cancel_codec, Ok(())).unwrap();
    assert!(matches!(
        cancelled.cancel(TransferCancelReason::User).unwrap(),
        PeerWireMessage::Cancel { reason: TransferCancelReason::User, .. }
    ));
    assert!(matches!(cancelled.next_chunk_range(), Err(TransferError::InvalidTransportLifecycle)));

    let sender_codec = EncryptedChunkCodec::new(key, prefix, &session.manifest).unwrap();
    let mut sender = SenderProgress::open(&session, sender_codec, Ok(())).unwrap();
    let receiver_codec = EncryptedChunkCodec::new(key, prefix, &session.manifest).unwrap();
    let mut receiver = ReceiverProgress::new(session.manifest.clone(), 0, &session, receiver_codec).unwrap();
    let mut durable = Vec::new();
    assert!(exchange(&mut sender, &mut receiver, &data, &mut durable));
    let first_offset = sender.acknowledged_bytes();
    assert_eq!(first_offset, MIN_CHUNK_BYTES as u64);
    sender.mark_disconnected();
    assert!(matches!(sender.next_chunk_range(), Err(TransferError::InvalidTransportLifecycle)));

    let checkpoint = ResumeCheckpoint {
        transfer_id: session.manifest.transfer_id.clone(),
        persisted_bytes: receiver.persisted_bytes(),
        prefix_sha256: sha256_hex(&durable),
    };
    assert_eq!(sender.resume_from_checkpoint(&session, &checkpoint, Ok(())).unwrap(), first_offset);

    let resumed_codec = EncryptedChunkCodec::new(key, prefix, &session.manifest).unwrap();
    let mut receiver =
        ReceiverProgress::new(session.manifest.clone(), durable.len() as u64, &session, resumed_codec).unwrap();
    while exchange(&mut sender, &mut receiver, &data, &mut durable) {}
    assert_eq!(sender.state(), TransportLifecycleState::Complete);
    assert_eq!(receiver.state(), TransportLifecycleState::Complete);
    assert!(receiver.require_complete().is_ok());
    assert_eq!(durable, data);
    session.acknowledge(data.len() as u64).unwrap();
    let digest: [u8; 32] = {
        let mut out = [0u8; 32];
        let hex = sha256_hex(&durable);
        for i in 0..32 {
            out[i] = u8::from_str_radix(&hex[2 * i..2 * i + 2], 16).unwrap();
        }
        out
    };
    assert_eq!(check_received_content(&session.manifest, durable.len() as u64, &digest).unwrap(), session.manifest.sha256_hex);
    session.finalize(durable.len() as u64, &sha256_hex(&durable)).unwrap();
    assert_eq!(session.state, TransferState::Finalized);
    assert!(matches!(sender.cancel(TransferCancelReason::User), Err(TransferError::InvalidTransportLifecycle)));
}

#[test]
fn receiver_refuses_out_of_order_chunks_and_answers_cancel() {
    let data: Vec<u8> = (0..30_000).map(|index| (index % 7) as u8).collect();
    let session = receive_fixture(&data);
    let codec = EncryptedChunkCodec::new([1; 32], [2; 16], &session.manifest).unwrap();
    let later = codec.encrypt(100, &data[100..200]).unwrap();
    let mut receiver = ReceiverProgress::new(session.manifest.clone(), 0, &session, codec).unwrap();
    assert!(matches!(receiver.accept(&PeerWireMessage::EncryptedChunk(later)), Err(TransferError::InvalidChunk)));
    let ack = PeerWireMessage::DurableAck { transfer_id: "transfer-1".into(), persisted_bytes: 1 };
    assert!(matches!(receiver.accept(&ack), Err(TransferError::InvalidWireMessage)));
    let foreign = PeerWireMessage::Cancel { transfer_id: "other".into(), reason: TransferCancelReason::User };
    assert!(matches!(receiver.accept(&foreign), Err(TransferError::InvalidWireMessage)));
    let cancel = PeerWireMessage::Cancel { transfer_id: "transfer-1".into(), reason: TransferCancelReason::Timeout };
    assert!(matches!(receiver.accept(&cancel), Ok(ReceiverStep::Cancelled)));
    assert_eq!(receiver.state(), TransportLifecycleState::Cancelled { reason: TransferCancelReason::Timeout });
    assert_eq!(receiver.require_complete(), Err(TransferError::InvalidTransportLifecycle));
}

#[test]
fn sender_refuses_wrong_acknowledgements_and_ble_sessions() {
    let data = vec![0x11; 20_000];
    let session = receive_fixture(&data);
    let codec = EncryptedChunkCodec::new([3; 32], [4; 16], &session.manifest).unwrap();
    let mut sender = SenderProgress::open(&session, codec, Ok(())).unwrap();
    let ack = PeerWireMessage::DurableAck { transfer_id: "transfer-1".into(), persisted_bytes: 1 };
    assert_eq!(sender.accept_ack(&ack), Err(TransferError::InvalidTransportLifecycle));
    let (offset, length) = sender.next_chunk_range().unwrap().unwrap();
    assert_eq!((offset, length), (0, MIN_CHUNK_BYTES as usize));
    sender.next_chunk(&data[..length]).unwrap();
    assert_eq!(sender.accept_ack(&ack), Err(TransferError::InvalidAcknowledgement));
    let other = PeerWireMessage::DurableAck { transfer_id: "other".into(), persisted_bytes: length as u64 };
    assert_eq!(sender.accept_ack(&other), Err(TransferError::InvalidAcknowledgement));
    let right = PeerWireMessage::DurableAck { transfer_id: "transfer-1".into(), persisted_bytes: length as u64 };
    assert_eq!(sender.accept_ack(&right), Ok(length as u64));
    assert_eq!(sender.state(), TransportLifecycleState::Transferring);

    let mut ble = receive_fixture(&data);
    ble.negotiated_transport = Some(TransportKind::BleControl);
    let codec = EncryptedChunkCodec::new([3; 32], [4; 16], &ble.manifest).unwrap();
    assert!(matches!(SenderProgress::open(&ble, codec, Ok(())), Err(TransferError::InvalidState)));
    let codec = EncryptedChunkCodec::new([3; 32], [4; 16], &session.manifest).unwrap();
    assert!(matches!(
        SenderProgress::open(&session, codec, Err(TransferError::ManifestMismatch)),
        Err(TransferError::ManifestMismatch)
    ));
}

#[test]
fn resume_checkpoints_and_receive_ledgers_are_checked() {
    let data = vec![0x22; 20_000];
    let session = receive_fixture(&data);
    let manifest = &session.manifest;
    let good = ResumeCheckpoint {
        transfer_id: "transfer-1".into(),
        persisted_bytes: 16_384,
        prefix_sha256: sha256_hex(&data[..16_384]),
    };
    assert!(check_resume_checkpoint(manifest, &good).is_ok());
    let mut beyond = good.clone();
    beyond.persisted_bytes = 20_001;
    assert_eq!(check_resume_checkpoint(manifest, &beyond), Err(TransferError::InvalidResumeCheckpoint));
    assert_eq!(check_source_length(manifest, 19_999), Err(TransferError::ManifestMismatch));
    assert!(check_source_length(manifest, 20_000).is_ok());
    assert_eq!(check_resume_prefix(&good, &[0u8; 32]), Err(TransferError::ResumePrefixMismatch));

    assert_eq!(receive_resume_position(manifest, &None, u64::MAX, 1 << 28), Ok(0));
    assert_eq!(receive_resume_position(manifest, &None, 20_000, 1), Err(TransferError::InsufficientStorage));
    let ledger = ReceiveLedger { schema_version: PROTOCOL_VERSION, manifest: manifest.clone(), persisted_bytes: 16_384 };
    assert_eq!(receive_resume_position(manifest, &Some(ledger), 3_617, 1), Ok(16_384));
    let mut other = manifest.clone();
    other.sha256_hex = "cd".repeat(32);
    let stale = ReceiveLedger { schema_version: PROTOCOL_VERSION, manifest: other, persisted_bytes: 16_384 };
    assert_eq!(receive_resume_position(manifest, &Some(stale), u64::MAX, 0), Err(TransferError::ManifestMismatch));
    assert_eq!(check_partial_file(manifest, 16_384, 16_000), Err(TransferError::CorruptResumeLedger));
    assert!(check_partial_file(manifest, 16_384, 16_384).is_ok());
    assert_eq!(check_received_content(manifest, 16_384, &[0u8; 32]), Err(TransferError::IncompleteReceive));
    assert_eq!(check_received_content(manifest, 20_000, &[0u8; 32]), Err(TransferError::ContentVerificationFailed));
}

#[test]
fn plain_writes_must_extend_the_durable_prefix() {
    let transfer = session();
    let manifest = &transfer.manifest;
    assert_eq!(check_write(manifest, 0, 0, MIN_CHUNK_BYTES as usize), Ok(MIN_CHUNK_BYTES as u64));
    assert_eq!(check_write(manifest, 0, 1, 10), Err(TransferError::InvalidChunk));
    assert_eq!(check_write(manifest, 0, 0, 0), Err(TransferError::InvalidChunk));
    assert_eq!(check_write(manifest, 0, 0, MIN_CHUNK_BYTES as usize + 1), Err(TransferError::InvalidChunk));
    assert_eq!(check_write(manifest, 99_990, 99_990, 11), Err(TransferError::InvalidChunk));
    assert_eq!(check_write(manifest, 99_990, 99_990, 10), Ok(100_000));
}

#[test]
fn confirmation_codes_are_six_digits_on_both_peers() {
    let transfer = session();
    for (a, b) in [(0x11u8, 0x22u8), (0x05, 0x7f), (0x90, 0x01)] {
        let first = EphemeralKeyPair::from_secret_bytes([a; 32]).unwrap();
        let second = EphemeralKeyPair::from_secret_bytes([b; 32]).unwrap();
        let id = &transfer.invitation.invitation_id;
        let sender = &transfer.invitation.sender.ephemeral_id;
        let code = first.confirmation_code(second.public_key(), id, sender, &transfer.manifest).unwrap();
        assert_eq!(second.confirmation_code(first.public_key(), id, sender, &transfer.manifest).unwrap(), code);
        assert_eq!(code.len(), 6);
        assert!(code.bytes().all(|c| c.is_ascii_digit()));
    }
}
