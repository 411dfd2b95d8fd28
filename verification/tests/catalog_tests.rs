use universal_camera::migration::{finish_step, AppliedProfileMigration, MigrationError, MigrationSteps};
use universal_camera::pipeline::{
    NodeOutline, NodeRole, OperationOutline, PipelineIntent, PipelineOutline, SignalDomain, SourceKind, SourceNode,
};
use universal_camera::profile_fields::{ProfileError, ProfileReference};
use universal_camera::profiles::{ProfileKind, PROFILE_SCHEMA_VERSION};
use universal_camera::snapshot::{node_requests, CatalogProfile, ProfileCatalog, ProfileRequest, SnapshotError};

fn profile(id: &str, kind: ProfileKind, references: Vec<(&str, Option<ProfileKind>)>) -> CatalogProfile {
    CatalogProfile {
        id: id.into(),
        kind,
        profile_version: "1.0.0".into(),
        references: references
            .into_iter()
            .map(|(profile_id, expected_kind)| ProfileReference { profile_id: profile_id.into(), expected_kind })
            .collect(),
        content_sha256: format!("{:0>64}", id.len()),
    }
}

fn catalog() -> ProfileCatalog {
    let mut catalog = ProfileCatalog::new();
    catalog
        .insert(profile("reference-lens", ProfileKind::Lens, vec![("reference-camera-body", Some(ProfileKind::Camera))]), Ok(()))
        .unwrap();
    catalog.insert(profile("rec709-reference", ProfileKind::Display, vec![]), Ok(())).unwrap();
    catalog.insert(profile("reference-camera-body", ProfileKind::Camera, vec![]), Ok(())).unwrap();
    catalog.insert(profile("unused", ProfileKind::Synthetic, vec![]), Ok(())).unwrap();
    catalog
}

fn pipeline() -> PipelineOutline {
    let node = |id: &str, operation: OperationOutline| NodeOutline {
        id: id.into(),
        role: NodeRole::Transform,
        enabled: true,
        operation,
    };
    PipelineOutline {
        id: "p".into(),
        schema_version: 1,
        intent: PipelineIntent::Emulation,
        nodes: vec![
            node(
                "scene",
                OperationOutline::Source(SourceNode {
                    source: SourceKind::Scene,
                    output_domain: SignalDomain::SceneLight,
                    profile_id: None,
                }),
            ),
            node("lens", OperationOutline::Lens { profile_id: "reference-lens".into() }),
            node("blank", OperationOutline::Camera { profile_id: "  ".into() }),
            node("display", OperationOutline::Display { profile_id: "rec709-reference".into() }),
        ],
    }
}

#[test]
fn catalog_refuses_duplicates_and_passes_validation_errors_on() {
    let mut catalog = catalog();
    assert_eq!(catalog.len(), 4);
    let error = catalog.insert(profile("unused", ProfileKind::Film, vec![]), Ok(())).unwrap_err();
    assert_eq!(error.path, "$.id");
    assert_eq!(error.reason, "duplicate profile id: unused");
    let invalid = ProfileError { path: "$.data".into(), reason: "must be a JSON object".into() };
    assert_eq!(catalog.insert(profile("other", ProfileKind::Film, vec![]), Err(invalid.clone())), Err(invalid));
    assert_eq!(catalog.len(), 4);
    assert_eq!(catalog.get("reference-lens").unwrap().kind, ProfileKind::Lens);
    assert!(catalog.get("missing").is_none());
}

#[test]
fn catalog_checks_reference_existence_and_kind() {
    assert!(catalog().validate_references().is_ok());
    let mut broken = catalog();
    broken.insert(profile("film", ProfileKind::Film, vec![("nowhere", None)]), Ok(())).unwrap();
    let error = broken.validate_references().unwrap_err();
    assert_eq!(error.path, "profiles[film].references[0].profile_id");
    assert_eq!(error.reason, "referenced profile not found: nowhere");
    let mut wrong_kind = catalog();
    wrong_kind.insert(profile("film", ProfileKind::Film, vec![("unused", Some(ProfileKind::Lens))]), Ok(())).unwrap();
    let error = wrong_kind.validate_references().unwrap_err();
    assert_eq!(error.path, "profiles[film].references[0].expected_kind");
    assert_eq!(error.reason, "expected Lens, found Synthetic for unused");
}

#[test]
fn snapshot_entries_are_sorted_complete_and_repeatable() {
    let requests = node_requests(&pipeline());
    assert_eq!(requests.len(), 2);
    assert_eq!(requests[0].path, "$.nodes[1].operation.config.profile_id");
    assert_eq!(requests[0].expected_kind, Some(ProfileKind::Lens));
    let entries = catalog().resolve_profiles(requests.clone()).unwrap();
    let ids: Vec<&str> = entries.iter().map(|entry| entry.id.as_str()).collect();
    assert_eq!(ids, vec!["rec709-reference", "reference-camera-body", "reference-lens"]);
    assert_eq!(catalog().resolve_profiles(requests).unwrap(), entries);
}

#[test]
fn snapshot_reports_missing_direct_profile_with_node_path() {
    let mut outline = pipeline();
    outline.nodes[1].operation = OperationOutline::Lens { profile_id: "missing-lens".into() };
    let error = catalog().resolve_profiles(node_requests(&outline)).unwrap_err();
    assert_eq!(
        error,
        SnapshotError::MissingProfile {
            path: "$.nodes[1].operation.config.profile_id".into(),
            profile_id: "missing-lens".into(),
        }
    );
}

#[test]
fn snapshot_rejects_kind_conflicts() {
    let request = |id: &str, kind: Option<ProfileKind>, path: &str| ProfileRequest {
        id: id.into(),
        expected_kind: kind,
        path: path.into(),
    };
    let mismatch = catalog().resolve_profiles(vec![request("unused", Some(ProfileKind::Film), "$.a")]).unwrap_err();
    assert_eq!(
        mismatch,
        SnapshotError::KindMismatch {
            path: "$.a".into(),
            profile_id: "unused".into(),
            expected: ProfileKind::Film,
            actual: ProfileKind::Synthetic,
        }
    );
    let conflict = catalog()
        .resolve_profiles(vec![
            request("unused", Some(ProfileKind::Synthetic), "$.a"),
            request("unused", Some(ProfileKind::Film), "$.b"),
        ])
        .unwrap_err();
    assert_eq!(
        conflict,
        SnapshotError::ConflictingKindRequirement {
            profile_id: "unused".into(),
            first: ProfileKind::Synthetic,
            second: ProfileKind::Film,
        }
    );
    let untyped = catalog().resolve_profiles(vec![request("unused", None, "$.a")]).unwrap();
    assert_eq!(untyped.len(), 1);
}

#[test]
fn migration_steps_reject_missing_and_duplicate_sources() {
    let mut steps = MigrationSteps::new(3);
    assert!(matches!(steps.register(3, "late".into()), Err(MigrationError::InvalidRegistration { .. })));
    assert!(matches!(steps.register(1, " ".into()), Err(MigrationError::InvalidRegistration { .. })));
    steps.register(1, "one-to-two".into()).unwrap();
    assert_eq!(steps.register(1, "again".into()), Err(MigrationError::DuplicateStep { from: 1 }));
    assert_eq!(steps.start(Some(1)), Ok(1));
    assert_eq!(steps.start(Some(4)), Err(MigrationError::FutureSchemaVersion { found: 4, supported: 3 }));
    assert_eq!(steps.start(None), Err(MigrationError::InvalidSchemaVersion));
    assert_eq!(steps.start(Some(u64::MAX)), Err(MigrationError::InvalidSchemaVersion));
    assert_eq!(steps.step_from(1), Ok("one-to-two".into()));
    assert_eq!(steps.step_from(2), Err(MigrationError::MissingStep { from: 2, to: 3 }));
}

#[test]
fn migration_step_output_version_is_checked() {
    assert_eq!(
        finish_step("one-to-two".into(), 1, Some(2)),
        Ok(AppliedProfileMigration { name: "one-to-two".into(), from_schema_version: 1, to_schema_version: 2 })
    );
    assert_eq!(
        finish_step("one-to-two".into(), 1, Some(3)),
        Err(MigrationError::StepProducedWrongVersion { name: "one-to-two".into(), expected: 2 })
    );
    assert_eq!(finish_step("one-to-two".into(), 1, None), Err(MigrationError::InvalidSchemaVersion));
}

#[test]
fn catalog_validates_reference_existence_and_kind() {
    let film_id = "org.universal-imaging.synthetic-color-negative-500";
    let development_id = "org.universal-imaging.synthetic-development";
    let film = profile(film_id, ProfileKind::Film, vec![]);
    let development = profile(development_id, ProfileKind::Development, vec![(film_id, Some(ProfileKind::Film))]);

    let mut catalog = ProfileCatalog::new();
    catalog.insert(development, Ok(())).unwrap();
    let missing = catalog.validate_references().unwrap_err();
    assert!(missing.path.ends_with(".profile_id"));

    catalog.insert(film, Ok(())).unwrap();
    catalog.validate_references().unwrap();

    let mut wrong_kind = ProfileCatalog::new();
    wrong_kind
        .insert(profile(development_id, ProfileKind::Development, vec![(film_id, Some(ProfileKind::Lens))]), Ok(()))
        .unwrap();
    wrong_kind.insert(profile(film_id, ProfileKind::Film, vec![]), Ok(())).unwrap();
    let mismatch = wrong_kind.validate_references().unwrap_err();
    assert!(mismatch.path.ends_with(".expected_kind"));
}

#[test]
fn migration_registry_rejects_missing_and_duplicate_steps() {
    let empty = MigrationSteps::new(PROFILE_SCHEMA_VERSION);
    let version = empty.start(Some(0)).unwrap();
    assert_eq!(empty.step_from(version), Err(MigrationError::MissingStep { from: 0, to: 1 }));

    let mut registry = MigrationSteps::new(PROFILE_SCHEMA_VERSION);
    registry.register(0, "test-v0-to-v1".into()).unwrap();
    assert_eq!(registry.register(0, "duplicate".into()), Err(MigrationError::DuplicateStep { from: 0 }));

    assert_eq!(
        MigrationSteps::new(PROFILE_SCHEMA_VERSION).start(Some(2)),
        Err(MigrationError::FutureSchemaVersion { found: 2, supported: 1 })
    );

    let mut wrong_registry = MigrationSteps::new(PROFILE_SCHEMA_VERSION);
    wrong_registry.register(0, "wrong-version".into()).unwrap();
    let version = wrong_registry.start(Some(0)).unwrap();
    let name = wrong_registry.step_from(version).unwrap();
    // The step hands the document back unchanged, still at schema 0.
    assert!(matches!(
        finish_step(name, version, Some(0)),
        Err(MigrationError::StepProducedWrongVersion { expected: 1, .. })
    ));
}
