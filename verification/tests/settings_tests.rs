use universal_camera::settings::{CameraSettings, SettingsError, StoredCameraFormat, SETTINGS_SCHEMA_VERSION};

#[test]
fn settings_round_trip_is_scoped_by_device() {
    let selected = StoredCameraFormat { width: 1280, height: 720, fps: 24 };
    let mut settings = CameraSettings::new();
    settings.set_format("camera-a", selected).unwrap();
    assert_eq!(settings.format_for_device("camera-a").unwrap(), Some(selected));
    assert_eq!(settings.format_for_device("camera-b").unwrap(), None);
}

#[test]
fn storing_again_replaces_only_that_device() {
    let first = StoredCameraFormat { width: 1920, height: 1080, fps: 30 };
    let second = StoredCameraFormat { width: 3840, height: 2160, fps: 24 };
    let other = StoredCameraFormat { width: 640, height: 480, fps: 60 };
    let mut settings = CameraSettings::new();
    settings.set_format("camera-a", first).unwrap();
    settings.set_format("camera-b", other).unwrap();
    settings.set_format("camera-a", second).unwrap();
    assert_eq!(settings.formats_by_device.len(), 2);
    assert_eq!(settings.format_for_device("camera-a").unwrap(), Some(second));
    assert_eq!(settings.format_for_device("camera-b").unwrap(), Some(other));
}

#[test]
fn other_schema_versions_are_refused_and_left_unchanged() {
    assert_eq!(CameraSettings::new().schema_version, SETTINGS_SCHEMA_VERSION);
    let mut settings = CameraSettings { schema_version: 2, formats_by_device: Vec::new() };
    let format = StoredCameraFormat { width: 1280, height: 720, fps: 24 };
    assert_eq!(settings.format_for_device("camera-a"), Err(SettingsError::UnsupportedSchemaVersion(2)));
    assert_eq!(settings.set_format("camera-a", format), Err(SettingsError::UnsupportedSchemaVersion(2)));
    assert!(settings.formats_by_device.is_empty());
}
