use universal_camera::media::{check_bgra8_frame, edge_mask, waveform_column};
use universal_camera::pipeline::{
    DevelopmentOutline, MediumOutline, NodeOutline, NodeRole, OperationOutline, OutputTransformNode, PipelineError,
    PipelineIntent, PipelineOutline, PrintNode, PrintProcess, SignalDomain, SourceKind, SourceNode,
};
use universal_camera::profile_fields::{
    validate_non_empty, validate_rfc3339, validate_semver, ProfileHeader, ProfileProvenance, ProfileReference,
};
use universal_camera::profiles::{MeasurementQuality, ProfileKind};

fn node(id: &str, role: NodeRole, operation: OperationOutline) -> NodeOutline {
    NodeOutline { id: id.into(), role, enabled: true, operation }
}

fn base(nodes: Vec<NodeOutline>) -> PipelineOutline {
    PipelineOutline { id: "test-pipeline".into(), schema_version: 1, intent: PipelineIntent::Emulation, nodes }
}

fn source() -> NodeOutline {
    node(
        "scene",
        NodeRole::Observed,
        OperationOutline::Source(SourceNode {
            source: SourceKind::Scene,
            output_domain: SignalDomain::SceneLight,
            profile_id: None,
        }),
    )
}

fn lens() -> NodeOutline {
    node("lens", NodeRole::Simulated, OperationOutline::Lens { profile_id: "reference-lens".into() })
}

fn camera() -> NodeOutline {
    node("camera", NodeRole::Observed, OperationOutline::Camera { profile_id: "reference-camera-body".into() })
}

fn display() -> NodeOutline {
    node("display", NodeRole::Transform, OperationOutline::Display { profile_id: "rec709-reference".into() })
}

#[test]
fn validates_complete_film_chain() {
    let pipeline = base(vec![
        source(),
        camera(),
        lens(),
        node(
            "negative",
            NodeRole::Simulated,
            OperationOutline::CaptureMedium(MediumOutline::Film { profile_id: "synthetic-negative-500".into() }),
        ),
        node(
            "development",
            NodeRole::Simulated,
            OperationOutline::Development(DevelopmentOutline::Chemical { process_id: "ecn2-reference".into() }),
        ),
        node(
            "print",
            NodeRole::Simulated,
            OperationOutline::Print(PrintNode {
                process: PrintProcess::Photochemical { profile_id: "synthetic-print".into() },
            }),
        ),
        display(),
    ]);
    assert_eq!(pipeline.validate(), Ok(()));
}

#[test]
fn validates_complete_digital_chain() {
    let pipeline = base(vec![
        source(),
        camera(),
        lens(),
        node(
            "sensor",
            NodeRole::Simulated,
            OperationOutline::CaptureMedium(MediumOutline::DigitalSensor {
                profile_id: "reference-bayer-sensor".into(),
            }),
        ),
        node(
            "raw-development",
            NodeRole::Transform,
            OperationOutline::Development(DevelopmentOutline::DigitalRaw { profile_id: "neutral-raw".into() }),
        ),
        node(
            "output-transform",
            NodeRole::Transform,
            OperationOutline::OutputTransform(OutputTransformNode { transform_id: "aces-2-rec709".into() }),
        ),
        display(),
    ]);
    assert_eq!(pipeline.validate(), Ok(()));
}

#[test]
fn rejects_film_development_after_digital_sensor() {
    let pipeline = base(vec![
        source(),
        camera(),
        lens(),
        node(
            "sensor",
            NodeRole::Observed,
            OperationOutline::CaptureMedium(MediumOutline::DigitalSensor { profile_id: "sensor".into() }),
        ),
        node(
            "wrong-development",
            NodeRole::Transform,
            OperationOutline::Development(DevelopmentOutline::Chemical { process_id: "ecn2".into() }),
        ),
        display(),
    ]);
    assert!(matches!(pipeline.validate(), Err(PipelineError::DomainMismatch { .. })));
}

#[test]
fn disabled_nodes_are_excluded_from_domain_flow() {
    let mut skipped_lens = lens();
    skipped_lens.enabled = false;
    let pipeline = base(vec![source(), skipped_lens, display()]);
    assert!(matches!(pipeline.validate(), Err(PipelineError::DomainMismatch { .. })));
}

#[test]
fn pipeline_errors_name_the_first_fault() {
    assert_eq!(base(vec![]).validate(), Err(PipelineError::Empty));
    let mut zero = base(vec![source(), display()]);
    zero.schema_version = 0;
    assert_eq!(zero.validate(), Err(PipelineError::InvalidSchemaVersion));
    assert_eq!(base(vec![camera(), source()]).validate(), Err(PipelineError::SourceMustBeFirst));
    assert_eq!(base(vec![source(), source()]).validate(), Err(PipelineError::MultipleSources));
    assert_eq!(base(vec![source(), camera(), camera()]).validate(), Err(PipelineError::InvalidNodeId("camera".into())));
    assert_eq!(
        base(vec![source(), camera()]).validate(),
        Err(PipelineError::Incomplete { final_domain: SignalDomain::SceneLight })
    );
    assert_eq!(
        base(vec![source(), display()]).validate(),
        Err(PipelineError::DomainMismatch {
            node_id: "display".into(),
            expected: SignalDomain::DisplayLinear,
            actual: SignalDomain::SceneLight,
        })
    );
    let mut all_disabled = source();
    all_disabled.enabled = false;
    assert_eq!(base(vec![all_disabled]).validate(), Err(PipelineError::Empty));
}

#[test]
fn digital_intermediate_print_reads_scene_linear() {
    let print = OperationOutline::Print(PrintNode {
        process: PrintProcess::DigitalIntermediate { profile_id: "di".into() },
    });
    assert_eq!(print.input_domain(), Some(SignalDomain::SceneLinear));
    assert_eq!(print.output_domain(), SignalDomain::DisplayLinear);
    assert_eq!(source().operation.input_domain(), None);
}

#[test]
fn bgra8_geometry_is_checked_before_reading() {
    assert_eq!(check_bgra8_frame(&[0; 8], 2, 1, 8), Ok(8));
    assert_eq!(check_bgra8_frame(&[0; 8], 0, 1, 8), Err("invalid BGRA8 frame geometry"));
    assert_eq!(check_bgra8_frame(&[0; 8], 3, 1, 8), Err("invalid BGRA8 frame geometry"));
    assert_eq!(check_bgra8_frame(&[0; 7], 2, 1, 8), Err("BGRA8 frame storage is truncated"));
    assert_eq!(check_bgra8_frame(&[0; 8], 1, u32::MAX, usize::MAX), Err("BGRA8 frame size overflow"));
    assert_eq!(waveform_column(0, 2), 0);
    assert_eq!(waveform_column(1, 2), 128);
    assert_eq!(waveform_column(3, 4), 192);
}

#[test]
fn edge_mask_marks_interior_edges_above_threshold() {
    let mut luma = vec![0u8; 16];
    for y in 0..4 {
        for x in 2..4 {
            luma[y * 4 + x] = 54;
        }
    }
    let mask = edge_mask(&luma, 4, 4, 10);
    assert_eq!(mask.len(), 16);
    assert!(mask.iter().any(|value| *value == 255));
    assert_eq!(mask[5], 255);
    assert_eq!(mask[0], 0);
    assert!(edge_mask(&luma, 4, 4, 255).iter().all(|value| *value == 0));
    assert!(edge_mask(&luma, 4, 4, 60).iter().all(|value| *value == 0));
    assert!(edge_mask(&[0, 255, 0, 255], 2, 2, 0).iter().all(|value| *value == 0));
}

#[test]
fn semantic_versions_follow_the_grammar() {
    for valid in ["1.0.0", "0.1.10", "1.2.3-alpha.1", "1.2.3-0", "1.2.3+build.5", "1.2.3-rc.1+001", "10.20.30"] {
        assert!(validate_semver("$.v", valid).is_ok(), "{valid}");
    }
    for invalid in ["1.0", "01.0.0", "1.0.0-", "1.0.0-01", "1.0.0+", "1.0.0+a+b", "1.0.0-a..b", "a.b.c", "1.0.0.0"] {
        let error = validate_semver("$.v", invalid).unwrap_err();
        assert_eq!(error.path, "$.v");
        assert_eq!(error.reason, "must be a semantic version");
    }
}

#[test]
fn timestamps_follow_rfc3339_with_real_dates() {
    for valid in ["2025-01-02T03:04:05Z", "2024-02-29T23:59:60.123+05:30", "2025-12-31t00:00:00z", "2025-06-01T10:00:00-07:00"] {
        assert!(validate_rfc3339("$.t", valid).is_ok(), "{valid}");
    }
    for invalid in [
        "2025-02-29T00:00:00Z",
        "2025-13-01T00:00:00Z",
        "2025-01-01 00:00:00Z",
        "2025-01-01T24:00:00Z",
        "2025-01-01T00:00:00.Z",
        "2025-01-01T00:00:00+24:00",
        "2025-01-01T00:00:00",
        "2025-01-01T00:00:00Zx",
    ] {
        let error = validate_rfc3339("$.t", invalid).unwrap_err();
        assert_eq!(error.reason, "must be an RFC 3339 timestamp", "{invalid}");
    }
    assert_eq!(validate_non_empty("$.id", " \t").unwrap_err().reason, "must not be empty");
    assert!(validate_non_empty("$.id", " x ").is_ok());
}

fn header() -> ProfileHeader {
    ProfileHeader {
        schema_version: 1,
        profile_version: "1.0.0".into(),
        id: "reference-lens".into(),
        kind: ProfileKind::Lens,
        manufacturer: "Reference".into(),
        model: "Lens".into(),
        license: "CC0-1.0".into(),
        created_at: "2025-01-02T03:04:05Z".into(),
        provenance: ProfileProvenance {
            quality: MeasurementQuality::Synthetic,
            source_type: "synthetic".into(),
            source_reference: "tests".into(),
            measurement_method: None,
            measured_by: None,
        },
        references: vec![ProfileReference { profile_id: "reference-sensor".into(), expected_kind: None }],
    }
}

#[test]
fn profile_header_validation_reports_a_json_path() {
    assert!(header().validate(true).is_ok());
    let error = header().validate(false).unwrap_err();
    assert_eq!((error.path.as_str(), error.reason.as_str()), ("$.data", "must be a JSON object"));
    let mut wrong_schema = header();
    wrong_schema.schema_version = 7;
    let error = wrong_schema.validate(true).unwrap_err();
    assert_eq!(error.path, "$.schema_version");
    assert_eq!(error.reason, "unsupported profile schema version 7; expected 1");
    let mut self_reference = header();
    self_reference.references.push(ProfileReference { profile_id: "reference-lens".into(), expected_kind: None });
    let error = self_reference.validate(true).unwrap_err();
    assert_eq!(error.path, "$.references[1].profile_id");
    assert_eq!(error.reason, "a profile cannot reference itself");
    let mut bad_date = header();
    bad_date.created_at = "yesterday".into();
    assert_eq!(bad_date.validate(true).unwrap_err().path, "$.created_at");
    let mut bad_version = header();
    bad_version.profile_version = "v1".into();
    assert_eq!(bad_version.validate(true).unwrap_err().path, "$.profile_version");
}
