use universal_camera::profile_fields::ProfileError;
use universal_camera::profiles::SensorCfa;
use universal_camera::sensor::check_sensor_profile;

fn fail(path: &str, reason: &str) -> ProfileError {
    ProfileError { path: path.into(), reason: reason.into() }
}

fn check(
    width: u32,
    bit_depth: u8,
    cfa: SensorCfa,
    pattern: Option<&str>,
    black: u32,
    white: u32,
    wavelengths: Vec<u16>,
) -> Result<(), ProfileError> {
    let channels = wavelengths.iter().map(|_| Ok(())).collect();
    check_sensor_profile(
        width,
        4000,
        Ok(()),
        bit_depth,
        cfa,
        &pattern.map(String::from),
        black,
        white,
        Ok(()),
        &wavelengths,
        channels,
    )
}

#[test]
fn sensor_layout_accepts_a_consistent_sensor() {
    assert_eq!(check(6000, 14, SensorCfa::BayerRggb, None, 512, 16383, vec![400, 500, 600]), Ok(()));
    assert_eq!(check(6000, 32, SensorCfa::Monochrome, None, 0, u32::MAX, vec![]), Ok(()));
    assert_eq!(check(6000, 12, SensorCfa::Custom, Some("RGBW"), 0, 4095, vec![]), Ok(()));
}

#[test]
fn sensor_layout_failures_name_their_field() {
    assert_eq!(
        check(0, 14, SensorCfa::BayerRggb, None, 0, 1, vec![]),
        Err(fail("$.data.active_width_pixels", "must be greater than zero"))
    );
    assert_eq!(
        check(6000, 0, SensorCfa::BayerRggb, None, 0, 1, vec![]),
        Err(fail("$.data.native_bit_depth", "must be between 1 and 32"))
    );
    assert_eq!(
        check(6000, 14, SensorCfa::Custom, Some("  "), 0, 1, vec![]),
        Err(fail("$.data.custom_cfa_pattern", "is required when cfa is custom"))
    );
    assert_eq!(
        check(6000, 14, SensorCfa::XTrans, Some("RGB"), 0, 1, vec![]),
        Err(fail("$.data.custom_cfa_pattern", "is only valid when cfa is custom"))
    );
    assert_eq!(
        check(6000, 14, SensorCfa::BayerRggb, None, 100, 100, vec![]),
        Err(fail("$.data.white_level", "must be greater than black_level"))
    );
    assert_eq!(
        check(6000, 12, SensorCfa::BayerRggb, None, 0, 4096, vec![]),
        Err(fail("$.data.white_level", "exceeds the native bit-depth code range"))
    );
    assert_eq!(
        check(6000, 14, SensorCfa::BayerRggb, None, 0, 1, vec![500]),
        Err(fail("$.data.spectral_sensitivity", "must be empty or contain at least two samples"))
    );
    assert_eq!(
        check(6000, 14, SensorCfa::BayerRggb, None, 0, 1, vec![400, 900]),
        Err(fail("$.data.spectral_sensitivity[1].wavelength_nm", "must be between 360 and 830 nm"))
    );
    assert_eq!(
        check(6000, 14, SensorCfa::BayerRggb, None, 0, 1, vec![400, 400, 500]),
        Err(fail("$.data.spectral_sensitivity[1].wavelength_nm", "must be strictly greater than the previous sample"))
    );
}

#[test]
fn floating_point_outcomes_are_reported_in_field_order() {
    let size = fail("$.data.sensor_width_mm", "must be greater than zero");
    let iso = fail("$.data.base_iso", "must be inside the declared ISO range");
    let channel = fail("$.data.spectral_sensitivity[0].red", "must be finite");
    let wavelengths = vec![400u16, 500];
    let none = || vec![Ok(()), Ok(())];
    let run = |size_result: Result<(), ProfileError>, bit_depth: u8, iso_result: Result<(), ProfileError>, channels| {
        check_sensor_profile(6000, 4000, size_result, bit_depth, SensorCfa::BayerRggb, &None, 0, 1, iso_result, &wavelengths, channels)
    };
    assert_eq!(run(Err(size.clone()), 0, Err(iso.clone()), none()), Err(size));
    assert_eq!(
        run(Ok(()), 0, Err(iso.clone()), none()),
        Err(fail("$.data.native_bit_depth", "must be between 1 and 32"))
    );
    assert_eq!(run(Ok(()), 14, Err(iso), vec![Err(channel.clone()), Ok(())]), Err(fail("$.data.base_iso", "must be inside the declared ISO range")));
    assert_eq!(run(Ok(()), 14, Ok(()), vec![Err(channel.clone()), Ok(())]), Err(channel));
}
