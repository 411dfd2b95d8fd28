use universal_camera::asset::{
    civil_from_days, reduce_rate, rfc3339_from_unix, validate_resource, CapturedColorMetadata, MediaResource,
    RationalRate, SelectedCaptureFormat, ValidationStatus,
};
use universal_camera::camera::{
    capture_id, AudioCapability, CameraController, CameraLifecycleEvent, CameraMode, CameraRecoveryAction, CameraState,
    CaptureCodec, CaptureContainer, CaptureOrientation, CaptureOutputCapability, CapturedMediaType,
};
use universal_camera::probe::{probe_isobmff, probe_jpeg};

#[test]
fn recording_blocks_mode_changes() {
    let mut c = CameraController::default();
    c.transition(CameraState::Starting).unwrap();
    c.transition(CameraState::Previewing).unwrap();
    c.transition(CameraState::Recording).unwrap();
    assert!(c.select_mode(CameraMode::Video).is_err());
}

#[test]
fn invalid_transition_is_rejected() {
    assert!(CameraController::default().transition(CameraState::Recording).is_err());
}

#[test]
fn capture_orientation_rejects_non_quarter_turns() {
    assert!(CaptureOrientation::new(90, true, false).is_ok());
    assert!(CaptureOrientation::new(45, false, false).is_err());
}

#[test]
fn output_capability_rejects_audio_on_still_and_invalid_bitrate() {
    let mut capability = CaptureOutputCapability {
        id: "jpeg".into(),
        mode: CameraMode::Still,
        container: CaptureContainer::Jpeg,
        video_or_still_codec: CaptureCodec::Jpeg,
        bit_depths: vec![8],
        bitrate_range_bps: None,
        audio: Some(AudioCapability {
            codec: CaptureCodec::Aac,
            sample_rates_hz: vec![48_000],
            channel_counts: vec![1],
            bitrate_range_bps: Some((64_000, 256_000)),
        }),
    };
    assert!(capability.validate().is_err());
    capability.mode = CameraMode::Video;
    capability.bitrate_range_bps = Some((10, 1));
    assert!(capability.validate().is_err());
    capability.bitrate_range_bps = Some((1, 10));
    assert!(capability.validate().is_ok());
}

#[test]
fn lifecycle_recovery_prioritizes_recording_finalize() {
    let mut controller = CameraController::default();
    controller.transition(CameraState::Starting).unwrap();
    controller.transition(CameraState::Previewing).unwrap();
    controller.transition(CameraState::Recording).unwrap();
    assert_eq!(
        controller.recovery_action(CameraLifecycleEvent::SystemSleeping),
        CameraRecoveryAction::FinalizeRecordingThenStop
    );
    assert_eq!(
        controller.recovery_action(CameraLifecycleEvent::DeviceDisconnected),
        CameraRecoveryAction::FinalizeRecordingThenStop
    );
}

#[test]
fn refused_transition_names_both_states_and_keeps_the_state() {
    let mut c = CameraController::default();
    let error = c.transition(CameraState::Recording).unwrap_err();
    assert_eq!(error.message(), "invalid transition: Idle -> Recording");
    assert_eq!(c.state(), CameraState::Idle);
    let rotation = CaptureOrientation::new(45, false, false).unwrap_err();
    assert_eq!(rotation.message(), "unsupported capture rotation: 45 degrees");
}

#[test]
fn mode_is_kept_while_recording_and_changes_otherwise() {
    let mut c = CameraController::default();
    assert_eq!(c.mode(), CameraMode::Still);
    c.select_mode(CameraMode::Video).unwrap();
    assert_eq!(c.mode(), CameraMode::Video);
    c.transition(CameraState::Starting).unwrap();
    c.transition(CameraState::Previewing).unwrap();
    c.transition(CameraState::Recording).unwrap();
    assert!(c.select_mode(CameraMode::Still).is_err());
    assert_eq!(c.mode(), CameraMode::Video);
}

fn jpeg_fixture() -> Vec<u8> {
    let mut jpeg = vec![0xff, 0xd8];
    let exif = [
        b'E', b'x', b'i', b'f', 0, 0, b'I', b'I', 42, 0, 8, 0, 0, 0, 2, 0, 0x12, 0x01, 3, 0, 1, 0, 0, 0, 6, 0, 0,
        0, 0x69, 0x87, 4, 0, 1, 0, 0, 0, 38, 0, 0, 0, 0, 0, 0, 0, 1, 0, 0x01, 0xa0, 3, 0, 1, 0, 0, 0, 1, 0, 0, 0,
        0, 0, 0, 0,
    ];
    jpeg.extend([0xff, 0xe1]);
    jpeg.extend(((exif.len() + 2) as u16).to_be_bytes());
    jpeg.extend(exif);
    jpeg.extend([0xff, 0xc0, 0, 17, 8, 4, 0, 6, 0, 3, 1, 0x11, 0, 2, 0x11, 0, 3, 0x11, 0, 0xff, 0xd9]);
    jpeg
}

#[test]
fn jpeg_probe_reads_dimensions_orientation_and_srgb() {
    let jpeg = jpeg_fixture();
    let resource = probe_jpeg("fixture.jpg", &jpeg).unwrap();
    assert_eq!((resource.pixel_width, resource.pixel_height), (1536, 1024));
    assert_eq!(resource.orientation, 6);
    assert_eq!(resource.rotation_degrees, 90);
    assert_eq!(resource.color.embedded_profile.as_deref(), Some("srgb_exif"));
}

#[test]
fn jpeg_probe_rejects_a_file_without_a_frame_header() {
    assert!(probe_jpeg("broken.jpg", &[0xff, 0xd8, 0xff, 0xd9]).is_err());
    assert!(probe_jpeg("not-a.jpg", &[0x00, 0x01, 0x02]).is_err());
}

#[test]
fn selected_format_validation_rejects_wrong_dimensions() {
    let resource = MediaResource {
        path: "capture.jpg".into(),
        byte_length: 1,
        container: "jpeg".into(),
        video_codec: Some("jpeg".into()),
        audio_codec: None,
        pixel_width: 1920,
        pixel_height: 1080,
        bit_depth: Some(8),
        orientation: 1,
        orientation_explicit: false,
        rotation_degrees: 0,
        mirrored: false,
        frame_rate: None,
        duration_ms: None,
        audio_channels: None,
        audio_sample_rate_hz: None,
        color: CapturedColorMetadata {
            embedded_profile: Some("icc".into()),
            color_primaries: None,
            transfer_characteristic: None,
            matrix_coefficients: None,
            full_range: None,
        },
    };
    let selected = SelectedCaptureFormat {
        width: 1280,
        height: 720,
        fps: RationalRate { numerator: 24, denominator: 1 },
    };
    assert_eq!(validate_resource(&resource, CapturedMediaType::Photo, &selected).status, ValidationStatus::Failed);
}

#[test]
fn matching_photo_passes_validation_and_rotated_dimensions_count() {
    let mut resource = probe_jpeg("fixture.jpg", &jpeg_fixture()).unwrap();
    let selected = SelectedCaptureFormat {
        width: 1024,
        height: 1536,
        fps: RationalRate { numerator: 24, denominator: 1 },
    };
    resource.byte_length = 10;
    let validation = validate_resource(&resource, CapturedMediaType::Photo, &selected);
    assert_ne!(validation.status, ValidationStatus::Failed);
}

#[test]
fn rate_is_reduced_without_losing_ntsc_fraction() {
    assert_eq!(reduce_rate(90_000, 3_003), RationalRate { numerator: 30_000, denominator: 1_001 });
}

#[test]
fn reduced_rate_of_whole_numbers() {
    assert_eq!(reduce_rate(48, 2), RationalRate { numerator: 24, denominator: 1 });
    assert_eq!(reduce_rate(25, 1), RationalRate { numerator: 25, denominator: 1 });
}

fn make_box(kind: &[u8; 4], payload: Vec<u8>) -> Vec<u8> {
    let mut result = Vec::with_capacity(payload.len() + 8);
    result.extend(((payload.len() + 8) as u32).to_be_bytes());
    result.extend(kind);
    result.extend(payload);
    result
}

fn synthetic_track(
    handler: &[u8; 4],
    codec: &[u8; 4],
    track_header: Vec<u8>,
    dimensions: Option<(u16, u16)>,
    timescale: u32,
    duration: u32,
    timing: Option<(u32, u32)>,
) -> Vec<u8> {
    let mut media_header = vec![0; 20];
    media_header[12..16].copy_from_slice(&timescale.to_be_bytes());
    media_header[16..20].copy_from_slice(&duration.to_be_bytes());
    let mut handler_payload = vec![0; 12];
    handler_payload[8..12].copy_from_slice(handler);

    let mut sample_payload = if dimensions.is_some() { vec![0; 78] } else { vec![0; 28] };
    if let Some((width, height)) = dimensions {
        sample_payload[24..26].copy_from_slice(&width.to_be_bytes());
        sample_payload[26..28].copy_from_slice(&height.to_be_bytes());
        let mut color = b"nclc".to_vec();
        color.extend(1u16.to_be_bytes());
        color.extend(1u16.to_be_bytes());
        color.extend(1u16.to_be_bytes());
        sample_payload.extend(make_box(b"colr", color));
    } else {
        sample_payload[16..18].copy_from_slice(&1u16.to_be_bytes());
        sample_payload[24..28].copy_from_slice(&(48_000u32 << 16).to_be_bytes());
    }
    let sample_entry = make_box(codec, sample_payload);
    let mut sample_description = vec![0; 8];
    sample_description[4..8].copy_from_slice(&1u32.to_be_bytes());
    sample_description.extend(sample_entry);
    let mut sample_table = make_box(b"stsd", sample_description);
    if let Some((count, delta)) = timing {
        let mut time_to_sample = vec![0; 16];
        time_to_sample[4..8].copy_from_slice(&1u32.to_be_bytes());
        time_to_sample[8..12].copy_from_slice(&count.to_be_bytes());
        time_to_sample[12..16].copy_from_slice(&delta.to_be_bytes());
        sample_table.extend(make_box(b"stts", time_to_sample));
    }
    let minf = make_box(b"minf", make_box(b"stbl", sample_table));
    let mut mdia = make_box(b"mdhd", media_header);
    mdia.extend(make_box(b"hdlr", handler_payload));
    mdia.extend(minf);
    let mut trak = make_box(b"tkhd", track_header);
    trak.extend(make_box(b"mdia", mdia));
    make_box(b"trak", trak)
}

#[test]
fn movie_probe_reads_tracks_timing_and_color_metadata() {
    let mut movie_header = vec![0; 20];
    movie_header[12..16].copy_from_slice(&1000u32.to_be_bytes());
    movie_header[16..20].copy_from_slice(&5671u32.to_be_bytes());

    let mut track_header = vec![0; 84];
    track_header[40..44].copy_from_slice(&65536i32.to_be_bytes());
    track_header[56..60].copy_from_slice(&65536i32.to_be_bytes());
    track_header[72..76].copy_from_slice(&0x40000000i32.to_be_bytes());
    track_header[76..80].copy_from_slice(&(1920u32 << 16).to_be_bytes());
    track_header[80..84].copy_from_slice(&(1080u32 << 16).to_be_bytes());
    let video_trak =
        synthetic_track(b"vide", b"avc1", track_header, Some((1920, 1080)), 600, 3360, Some((168, 20)));
    let audio_trak = synthetic_track(b"soun", b"mp4a", vec![0; 84], None, 48_000, 266_240, None);
    let mut moov_payload = make_box(b"mvhd", movie_header);
    moov_payload.extend(video_trak);
    moov_payload.extend(audio_trak);
    let mut movie = make_box(b"ftyp", b"qt  \0\0\0\0".to_vec());
    movie.extend(make_box(b"moov", moov_payload));

    let resource = probe_isobmff("fixture.mov", &movie).unwrap();
    assert_eq!(resource.container, "quicktime");
    assert_eq!(resource.video_codec.as_deref(), Some("h264"));
    assert_eq!(resource.audio_codec.as_deref(), Some("aac"));
    assert_eq!((resource.pixel_width, resource.pixel_height), (1920, 1080));
    assert_eq!(resource.frame_rate.unwrap(), RationalRate { numerator: 30, denominator: 1 });
    assert_eq!(resource.duration_ms, Some(5671));
    assert_eq!(resource.color.color_primaries.as_deref(), Some("bt709"));
    assert_eq!(resource.audio_channels, Some(1));
    assert_eq!(resource.audio_sample_rate_hz, Some(48_000));
}

#[test]
fn movie_probe_rejects_data_without_boxes() {
    assert!(probe_isobmff("empty.mov", &[]).is_err());
    assert!(probe_isobmff("short.mov", &[0, 0, 0, 4, b'f']).is_err());
}

#[test]
fn unix_epoch_calendar_conversion_is_stable() {
    assert_eq!(civil_from_days(0), (1970, 1, 1));
    assert_eq!(civil_from_days(20_324), (2025, 8, 24));
}

#[test]
fn calendar_handles_leap_days_and_days_before_the_epoch() {
    assert_eq!(civil_from_days(-1), (1969, 12, 31));
    assert_eq!(civil_from_days(11_016), (2000, 2, 29));
    assert_eq!(rfc3339_from_unix(0, 0), "1970-01-01T00:00:00.000Z");
    assert_eq!(rfc3339_from_unix(1_756_000_000, 42), "2025-08-24T01:46:40.042Z");
}

#[test]
fn capture_commands_are_guarded_by_state_and_mode() {
    let mut c = CameraController::default();
    assert_eq!(c.check_photo_ready().unwrap_err().0, "camera preview is not ready");
    assert_eq!(c.check_recording_active().unwrap_err().0, "video recording is not active");
    c.transition(CameraState::Starting).unwrap();
    c.transition(CameraState::Previewing).unwrap();
    assert!(c.check_photo_ready().is_ok());
    assert_eq!(c.check_recording_ready().unwrap_err().0, "video recording requires video mode");
    c.select_mode(CameraMode::Video).unwrap();
    assert_eq!(c.check_photo_ready().unwrap_err().0, "photo capture requires still mode");
    assert!(c.check_recording_ready().is_ok());
    c.transition(CameraState::Recording).unwrap();
    assert!(c.check_recording_active().is_ok());
}

#[test]
fn capture_ids_carry_seconds_and_nine_digit_nanoseconds() {
    assert_eq!(capture_id(1_700_000_000, 42), "UFC-1700000000-000000042");
    assert_eq!(capture_id(0, 999_999_999), "UFC-0-999999999");
    assert_eq!(capture_id(5, 0), format!("UFC-{}-{:09}", 5, 0));
}
