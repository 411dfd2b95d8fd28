use universal_camera::asset::AssetState;
use universal_camera::camera::{camera_error, CapturedMediaType};
use universal_camera::media_index::{
    is_safe_record_id, media_identity, merge_index, orphaned_resources, CaptureFile, IncompleteFile, MediaIndex,
    MediaIndexEntry, OrphanedResource, MEDIA_RECORD_SCHEMA_VERSION,
};

fn failed(id: &str, path: &str) -> MediaIndexEntry {
    MediaIndex::new("/captures".into())
        .record_failed(
            id.into(),
            CapturedMediaType::Photo,
            path.into(),
            "probe failed".into(),
            "2025-01-02T03:04:05.000Z".into(),
        )
        .unwrap()
}

#[test]
fn record_id_cannot_escape_the_manifest_directory() {
    assert!(is_safe_record_id("photo-1_a"));
    assert!(!is_safe_record_id("../escape"));
    assert!(!is_safe_record_id(""));
    assert!(!is_safe_record_id("a/b"));
    let index = MediaIndex::new("/captures".into());
    assert!(index
        .record_failed(
            "../escape".into(),
            CapturedMediaType::Photo,
            "/captures/x.jpg".into(),
            "bad".into(),
            "2025-01-02T03:04:05.000Z".into(),
        )
        .is_err());
}

#[test]
fn failed_records_need_an_id_and_an_error() {
    let record = failed("photo-1", "/captures/photo-1.jpg");
    assert_eq!(record.schema_version, MEDIA_RECORD_SCHEMA_VERSION);
    assert_eq!(record.state, AssetState::Failed);
    assert_eq!(record.error.as_deref(), Some("probe failed"));
    let index = MediaIndex::new("/captures".into());
    let error = index
        .record_failed(" ".into(), CapturedMediaType::Photo, "/x".into(), "e".into(), "now".into())
        .unwrap_err();
    assert_eq!(error.message(), "failed media record requires an ID and error");
}

#[test]
fn media_identity_comes_from_the_file_name() {
    assert_eq!(media_identity("UFC-1.jpg"), Some(("UFC-1".into(), CapturedMediaType::Photo)));
    assert_eq!(media_identity("UFC-2.mov"), Some(("UFC-2".into(), CapturedMediaType::Video)));
    assert_eq!(media_identity("notes.txt"), None);
    assert_eq!(media_identity("noextension"), None);
}

#[test]
fn corrupt_manifest_fails_the_index_instead_of_hiding_data() {
    let good = failed("photo-1", "/captures/photo-1.jpg");
    let listing = merge_index(vec![Ok(good.clone()), Err(camera_error("corrupt manifest"))], vec![]);
    assert_eq!(listing.unwrap_err().message(), "corrupt manifest");
}

#[test]
fn finalized_failed_and_incomplete_media_are_listed_separately() {
    let first = failed("photo-b", "/captures/photo-b.jpg");
    let second = failed("photo-a", "/captures/photo-a.jpg");
    let incomplete = vec![IncompleteFile {
        path: "/captures/.incomplete/photo-c.jpg".into(),
        file_name: "photo-c.jpg".into(),
        updated_at_utc: "2025-01-02T03:04:05.000Z".into(),
    }];
    let listing = merge_index(vec![Ok(first), Ok(second)], incomplete).unwrap();
    assert_eq!(listing.len(), 3);
    assert!(listing.iter().any(|entry| entry.id == "photo-c" && entry.state == AssetState::Incomplete));
    let failed_ids: Vec<&str> =
        listing.iter().filter(|entry| entry.state == AssetState::Failed).map(|entry| entry.id.as_str()).collect();
    assert_eq!(failed_ids.len(), 2);
}

#[test]
fn reconciliation_records_orphan_without_deleting_it() {
    let indexed = vec![failed("photo-1", "/captures/photo-1.jpg")];
    let files = vec![
        CaptureFile { path: "/captures/photo-1.jpg".into(), file_name: "photo-1.jpg".into() },
        CaptureFile { path: "/captures/photo-2.jpg".into(), file_name: "photo-2.jpg".into() },
        CaptureFile { path: "/captures/readme.txt".into(), file_name: "readme.txt".into() },
    ];
    let orphans = orphaned_resources(&indexed, &files);
    assert_eq!(orphans.len(), 1);
    assert_eq!(orphans[0].id, "photo-2");
    assert_eq!(orphans[0].path, "/captures/photo-2.jpg");
}

#[test]
fn cleanup_removes_only_recoverable_managed_media() {
    let index = MediaIndex::new("/captures".into());
    let entries = vec![failed("photo-1", "/captures/photo-1.jpg")];
    assert_eq!(index.cleanup_recoverable("photo-1", entries.clone()).unwrap().id, "photo-1");
    assert!(index.cleanup_recoverable("photo-9", entries).is_err());
}

#[test]
fn orphaned_captures_are_recorded_as_failed_with_their_file() {
    let index = MediaIndex::new("/captures".into());
    let orphan = OrphanedResource {
        id: "UFC-1-000000001".into(),
        media_type: CapturedMediaType::Video,
        path: "/captures/UFC-1-000000001.mov".into(),
    };
    let record = index.orphan_record(orphan, "2025-01-02T03:04:05Z".into()).unwrap();
    assert_eq!(record.state, AssetState::Failed);
    assert_eq!(record.id, "UFC-1-000000001");
    assert_eq!(record.media_type, CapturedMediaType::Video);
    assert_eq!(record.resource_path, "/captures/UFC-1-000000001.mov");
    assert_eq!(record.error.as_deref(), Some("orphaned finalized resource: manifest is missing"));
    assert!(record.asset.is_none());
    let bad = OrphanedResource { id: "../x".into(), media_type: CapturedMediaType::Photo, path: "/x".into() };
    assert!(index.orphan_record(bad, "2025-01-02T03:04:05Z".into()).is_err());
}
