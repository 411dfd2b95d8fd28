use universal_camera::asset::{
    CaptureMetadata, CapturedAsset, DerivativeProvenance, DerivativePurpose, RationalRate, SelectedCaptureFormat,
};
use universal_camera::bundle::{
    check_derivative_resource, check_original_resource, AssetSelection, AssetTransferManifest, BundleReceiveCoordinator,
    TransferResource, TransferResourceRole,
};
use universal_camera::camera::CapturedMediaType;
use universal_camera::crypto::sha256_hex;
use universal_camera::outgoing::{check_sanitize_policy, sanitize_jpeg_for_transfer, SourceFile};
use universal_camera::probe::probe_jpeg;
use universal_camera::profiles::{ProfileKind, ProfileSnapshotEntry, RenderProfileSnapshot};
use universal_camera::sanitize::sanitized_jpeg_bytes;
use universal_camera::transfer::{Invitation, MetadataPolicy, PeerIdentity, TransferError, MIN_CHUNK_BYTES};

fn jpeg_fixture() -> Vec<u8> {
    let mut jpeg = vec![0xff, 0xd8];
    let exif = [
        b'E', b'x', b'i', b'f', 0, 0, b'I', b'I', 42, 0, 8, 0, 0, 0, 2, 0, 0x12, 0x01, 3, 0, 1, 0, 0, 0, 1, 0, 0,
        0, 0x69, 0x87, 4, 0, 1, 0, 0, 0, 38, 0, 0, 0, 0, 0, 0, 0, 1, 0, 0x01, 0xa0, 3, 0, 1, 0, 0, 0, 1, 0, 0, 0,
        0, 0, 0, 0,
    ];
    jpeg.extend([0xff, 0xe1]);
    jpeg.extend(((exif.len() + 2) as u16).to_be_bytes());
    jpeg.extend(exif);
    jpeg.extend([0xff, 0xc0, 0, 17, 8, 4, 0, 6, 0, 3, 1, 0x11, 0, 2, 0x11, 0, 3, 0x11, 0, 0xff, 0xd9]);
    jpeg
}

fn jpeg_segment(marker: u8, payload: &[u8]) -> Vec<u8> {
    let mut segment = vec![0xff, marker];
    segment.extend(((payload.len() + 2) as u16).to_be_bytes());
    segment.extend(payload);
    segment
}

fn capture_metadata() -> CaptureMetadata {
    CaptureMetadata {
        device_id: "remote-camera".into(),
        selected_format: SelectedCaptureFormat {
            width: 1536,
            height: 1024,
            fps: RationalRate { numerator: 1, denominator: 1 },
        },
    }
}

fn derivative_provenance(parent_resource_id: String) -> DerivativeProvenance {
    DerivativeProvenance {
        parent_resource_id,
        render_snapshot: RenderProfileSnapshot {
            schema_version: 1,
            pipeline_id: "peer-film-preview".into(),
            pipeline_sha256: "1".repeat(64),
            profiles: vec![ProfileSnapshotEntry {
                id: "film.synthetic".into(),
                kind: ProfileKind::Film,
                profile_version: "1.0.0".into(),
                content_sha256: "2".repeat(64),
            }],
            snapshot_sha256: "3".repeat(64),
        },
        engine_version: "film-core/0.1.0+peer-test".into(),
        seed: 42,
    }
}

fn asset(id: &str, data: &[u8]) -> CapturedAsset {
    let resource = probe_jpeg(&format!("{id}.jpg"), data).unwrap();
    CapturedAsset::from_probed_resource(
        id.into(),
        CapturedMediaType::Photo,
        resource,
        format!("/captures/{id}.jpg"),
        capture_metadata(),
        "2025-01-02T03:04:05.000Z".into(),
    )
    .unwrap()
}

fn invitation() -> Invitation {
    Invitation {
        invitation_id: "invite-1".into(),
        sender: PeerIdentity { ephemeral_id: "session-peer-a".into(), display_label: None },
        confirmation_code: "482913".into(),
        expires_at_unix_ms: 10_000,
    }
}

#[test]
fn jpeg_sanitizer_removes_private_metadata_and_preserves_color_profile() {
    let fixture = jpeg_fixture();
    let mut input = fixture[..2].to_vec();
    input.extend(jpeg_segment(0xe2, b"ICC_PROFILE\0profile-data"));
    input.extend(jpeg_segment(0xed, b"IPTC private location"));
    input.extend(jpeg_segment(0xfe, b"device serial comment"));
    input.extend_from_slice(&fixture[2..]);
    let (output, sanitized) =
        sanitize_jpeg_for_transfer(MetadataPolicy::StripDeviceAndLocation, "/share/sanitized.jpg", &input).unwrap();
    assert!(output.windows(b"ICC_PROFILE\0".len()).any(|part| part == b"ICC_PROFILE\0"));
    assert!(!output.windows(4).any(|part| part == b"Exif"));
    assert!(!output.windows(4).any(|part| part == b"IPTC"));
    assert!(!output.windows(6).any(|part| part == b"serial"));
    assert_eq!(sanitized.report.removed_segments, 3);
    assert_eq!(sanitized.report.output_bytes, output.len() as u64);
    assert_eq!(sanitized.report.sha256_hex, sha256_hex(&output));
    assert_eq!(sanitized.path(), "/share/sanitized.jpg");
    let resource = probe_jpeg("sanitized.jpg", &output).unwrap();
    assert_eq!((resource.pixel_width, resource.pixel_height), (1536, 1024));
    assert!(!resource.orientation_explicit);
}

#[test]
fn sanitizing_a_sanitized_jpeg_changes_nothing() {
    let fixture = jpeg_fixture();
    let mut input = fixture[..2].to_vec();
    input.extend(jpeg_segment(0xe0, b"JFIF\0\x01\x02"));
    input.extend([0xff, 0xff]);
    input.extend(jpeg_segment(0xe2, b"ICC_PROFILE\0profile-data"));
    input.extend(jpeg_segment(0xe1, b"http://ns.adobe.com/xap/1.0/\0<x:xmpmeta/>"));
    input.extend(jpeg_segment(0xee, b"Adobe\0colour"));
    input.extend_from_slice(&fixture[2..]);
    let (once, removed) = sanitized_jpeg_bytes(&input).unwrap();
    assert_eq!(removed, 2);
    assert!(once.len() < input.len());
    let (twice, removed_again) = sanitized_jpeg_bytes(&once).unwrap();
    assert_eq!(twice, once);
    assert_eq!(removed_again, 0);
}

#[test]
fn jpeg_sanitizer_rejects_location_only_policy_and_malformed_input() {
    assert_eq!(check_sanitize_policy(MetadataPolicy::StripLocation), Err(TransferError::UnsupportedMetadataPolicy));
    assert!(matches!(
        sanitize_jpeg_for_transfer(MetadataPolicy::StripLocation, "/share/x.jpg", &jpeg_fixture()),
        Err(TransferError::UnsupportedMetadataPolicy)
    ));
    assert!(matches!(
        sanitized_jpeg_bytes(&[0xff, 0xd8, 0xff, 0xe1, 0, 20, 1, 2]),
        Err(TransferError::UnsupportedMediaForSanitization) | Err(TransferError::MalformedJpeg)
    ));
    assert!(sanitized_jpeg_bytes(&[0x89, 0x50]).is_err());
}

#[test]
fn original_manifest_carries_the_examined_digest_and_size() {
    let data = jpeg_fixture();
    let source_asset = asset("source-original", &data);
    let bundle = AssetTransferManifest::from_captured_asset(
        &source_asset,
        AssetSelection::Original,
        "share-1",
        MIN_CHUNK_BYTES,
        MetadataPolicy::Preserve,
        vec![Ok(SourceFile {
            file_name: "source-original.jpg".into(),
            byte_length: data.len() as u64,
            sha256_hex: sha256_hex(&data),
        })],
    )
    .unwrap();
    assert_eq!(bundle.resources.len(), 1);
    let resource = &bundle.resources[0];
    assert_eq!(resource.role, TransferResourceRole::Original);
    assert_eq!(resource.manifest.byte_length, data.len() as u64);
    assert_eq!(resource.manifest.sha256_hex, sha256_hex(&data));
    assert_eq!(resource.manifest.chunk_size, MIN_CHUNK_BYTES);
    assert!(resource.manifest.validate().is_ok());

    let unknown = AssetTransferManifest::from_captured_asset(
        &source_asset,
        AssetSelection::Derivatives { resource_ids: vec!["missing".into()] },
        "share-2",
        MIN_CHUNK_BYTES,
        MetadataPolicy::Preserve,
        vec![],
    );
    assert!(unknown.is_err());
}

#[test]
fn bundle_coordinator_finalizes_original_before_mapped_derivative() {
    let data = jpeg_fixture();
    let mut source_asset = asset("source-bundle", &data);
    let parent = source_asset.original_resource_id.clone();
    source_asset
        .add_derivative(
            "source-bundle:processed".into(),
            DerivativePurpose::Processed,
            probe_jpeg("processed.jpg", &data).unwrap(),
            derivative_provenance(parent),
        )
        .unwrap();
    let file = || {
        Ok(SourceFile {
            file_name: "bundle-original.jpg".into(),
            byte_length: data.len() as u64,
            sha256_hex: sha256_hex(&data),
        })
    };
    let bundle = AssetTransferManifest::from_captured_asset(
        &source_asset,
        AssetSelection::OriginalAndDerivatives { resource_ids: vec!["source-bundle:processed".into()] },
        "bundle-share",
        MIN_CHUNK_BYTES,
        MetadataPolicy::Preserve,
        vec![file(), file()],
    )
    .unwrap();
    assert_eq!(bundle.resources.len(), 2);
    let mut coordinator = BundleReceiveCoordinator::new(bundle, "received-bundle".into()).unwrap();
    assert!(matches!(
        coordinator.prepare_derivative_receive("source-bundle:processed", invitation()),
        Err(TransferError::BundleDependencyNotFinalized)
    ));
    let (session, index) = coordinator.prepare_original_receive(invitation()).unwrap();
    assert_eq!(index, 0);
    assert_eq!(session.manifest.sha256_hex, sha256_hex(&data));

    let local = asset("received-bundle", &data);
    coordinator.mark_original_finalized(&local).unwrap();
    assert!(matches!(
        coordinator.prepare_original_receive(invitation()),
        Err(TransferError::BundleResourceAlreadyFinalized)
    ));
    let (_, plan) = coordinator.prepare_derivative_receive("source-bundle:processed", invitation()).unwrap();
    assert_eq!(plan.index, 1);
    assert_eq!(plan.parent_resource_id, "received-bundle:original");
    let mapped: Vec<(String, String)> = coordinator.source_to_local_resource_ids().clone();
    assert!(mapped.contains(&("source-bundle:original".into(), "received-bundle:original".into())));
}

#[test]
fn coordinator_lists_its_mapping_in_source_id_order() {
    let data = jpeg_fixture();
    let mut source_asset = asset("source-bundle", &data);
    let parent = source_asset.original_resource_id.clone();
    source_asset
        .add_derivative(
            "source-bundle:edit".into(),
            DerivativePurpose::Processed,
            probe_jpeg("edit.jpg", &data).unwrap(),
            derivative_provenance(parent),
        )
        .unwrap();
    let file = || {
        Ok(SourceFile {
            file_name: "bundle-original.jpg".into(),
            byte_length: data.len() as u64,
            sha256_hex: sha256_hex(&data),
        })
    };
    let bundle = AssetTransferManifest::from_captured_asset(
        &source_asset,
        AssetSelection::OriginalAndDerivatives { resource_ids: vec!["source-bundle:edit".into()] },
        "bundle-share",
        MIN_CHUNK_BYTES,
        MetadataPolicy::Preserve,
        vec![file(), file()],
    )
    .unwrap();
    let mut coordinator = BundleReceiveCoordinator::new(bundle, "received-bundle".into()).unwrap();
    let mut local = asset("received-bundle", &data);
    coordinator.mark_original_finalized(&local).unwrap();
    let local_parent = local.original_resource_id.clone();
    local
        .add_derivative(
            "received-bundle:peer-1".into(),
            DerivativePurpose::Processed,
            probe_jpeg("edit.jpg", &data).unwrap(),
            derivative_provenance(local_parent),
        )
        .unwrap();
    coordinator.mark_derivative_finalized("source-bundle:edit", &local).unwrap();
    let keys: Vec<String> = coordinator.source_to_local_resource_ids().iter().map(|(k, _)| k.clone()).collect();
    assert_eq!(keys, vec!["source-bundle:edit", "source-bundle:original"]);
}

#[test]
fn original_receive_rejects_derivative_role() {
    let data = jpeg_fixture();
    let source_asset = asset("source-roles", &data);
    let bundle = AssetTransferManifest::from_captured_asset(
        &source_asset,
        AssetSelection::Original,
        "roles",
        MIN_CHUNK_BYTES,
        MetadataPolicy::Preserve,
        vec![Ok(SourceFile { file_name: "roles.jpg".into(), byte_length: data.len() as u64, sha256_hex: sha256_hex(&data) })],
    )
    .unwrap();
    let original = bundle.resources[0].clone();
    assert_eq!(check_original_resource(&original, "local-asset"), Ok(CapturedMediaType::Photo));
    assert_eq!(check_original_resource(&original, "../escape"), Err(TransferError::InvalidSourceAsset));
    let derivative = TransferResource {
        resource_id: "remote:processed".into(),
        role: TransferResourceRole::Derivative { purpose: DerivativePurpose::Processed },
        derivative_provenance: None,
        manifest: original.manifest.clone(),
    };
    assert_eq!(check_original_resource(&derivative, "local-asset"), Err(TransferError::InvalidSelection));
    assert_eq!(check_derivative_resource(&derivative, &source_asset), Err(TransferError::MissingDerivativeProvenance));
    let mut with_parent = derivative.clone();
    with_parent.derivative_provenance = Some(derivative_provenance(source_asset.original_resource_id.clone()));
    assert_eq!(check_derivative_resource(&with_parent, &source_asset), Ok(DerivativePurpose::Processed));
    with_parent.derivative_provenance = Some(derivative_provenance("unknown".into()));
    assert_eq!(check_derivative_resource(&with_parent, &source_asset), Err(TransferError::DerivativeParentMismatch));
    assert_eq!(check_original_resource(&with_parent, "local-asset"), Err(TransferError::InvalidSelection));
}
