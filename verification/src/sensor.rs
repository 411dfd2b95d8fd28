//! The integer and text checks of a digital sensor profile's data: pixel
//! dimensions, bit depth and code range, colour filter pattern and the
//! spectral samples' wavelengths. The floating-point checks are made by the
//! caller and handed in as outcomes, so that every failure is reported in
//! the order the profile's fields are checked.
use vstd::prelude::*;
use crate::profile_fields::ProfileError;
use crate::profiles::SensorCfa;
use crate::text::{blank, decimal, is_blank, owned, push_decimal, push_str};

verus! {

/// A check's outcome as plain values: the failing path and reason, if any.
pub open spec fn fault_of(r: Result<(), ProfileError>) -> Option<(Seq<char>, Seq<char>)> {
    match r {
        Ok(_) => None,
        Err(e) => Some((e.path@, e.reason@)),
    }
}

/// Two to the power `n`.
pub open spec fn pow2(n: nat) -> nat
    decreases n,
{
    if n == 0 {
        1
    } else {
        2 * pow2((n - 1) as nat)
    }
}

/// The path of sample `i`'s wavelength.
pub open spec fn wavelength_path(i: nat) -> Seq<char> {
    "$.data.spectral_sensitivity["@ + decimal(i) + "].wavelength_nm"@
}

/// The first failure among the spectral samples from `i` on: a wavelength
/// outside 360–830 nm, then the sample's response values (`channels[i]`),
/// then a wavelength not above the previous one.
pub open spec fn samples_fault(
    wavelengths: Seq<u16>,
    channels: Seq<Option<(Seq<char>, Seq<char>)>>,
    i: int,
) -> Option<(Seq<char>, Seq<char>)>
    decreases wavelengths.len() - i,
{
    if i < 0 || i >= wavelengths.len() {
        None
    } else if !(360 <= wavelengths[i] <= 830) {
        Some((wavelength_path(i as nat), "must be between 360 and 830 nm"@))
    } else if channels[i] is Some {
        channels[i]
    } else if i > 0 && wavelengths[i] <= wavelengths[i - 1] {
        Some((wavelength_path(i as nat), "must be strictly greater than the previous sample"@))
    } else {
        samples_fault(wavelengths, channels, i + 1)
    }
}

/// The first failure of a digital sensor profile's data, in the order its
/// fields are checked; `sensor_size` is the outcome of the checks of the
/// sensor's millimetre dimensions, `iso` that of the base ISO and the ISO
/// range, `channels[i]` that of sample `i`'s response values.
pub open spec fn sensor_fault(
    width: u32,
    height: u32,
    sensor_size: Option<(Seq<char>, Seq<char>)>,
    bit_depth: u8,
    cfa: SensorCfa,
    custom_pattern: Option<Seq<char>>,
    black: u32,
    white: u32,
    iso: Option<(Seq<char>, Seq<char>)>,
    wavelengths: Seq<u16>,
    channels: Seq<Option<(Seq<char>, Seq<char>)>>,
) -> Option<(Seq<char>, Seq<char>)> {
    if width == 0 {
        Some(("$.data.active_width_pixels"@, "must be greater than zero"@))
    } else if height == 0 {
        Some(("$.data.active_height_pixels"@, "must be greater than zero"@))
    } else if sensor_size is Some {
        sensor_size
    } else if !(1 <= bit_depth <= 32) {
        Some(("$.data.native_bit_depth"@, "must be between 1 and 32"@))
    } else if cfa == SensorCfa::Custom && (custom_pattern is None || blank(custom_pattern->0)) {
        Some(("$.data.custom_cfa_pattern"@, "is required when cfa is custom"@))
    } else if cfa != SensorCfa::Custom && custom_pattern is Some {
        Some(("$.data.custom_cfa_pattern"@, "is only valid when cfa is custom"@))
    } else if white <= black {
        Some(("$.data.white_level"@, "must be greater than black_level"@))
    } else if white > pow2(bit_depth as nat) - 1 {
        Some(("$.data.white_level"@, "exceeds the native bit-depth code range"@))
    } else if iso is Some {
        iso
    } else if wavelengths.len() == 1 {
        Some(("$.data.spectral_sensitivity"@, "must be empty or contain at least two samples"@))
    } else {
        samples_fault(wavelengths, channels, 0)
    }
}

fn failure(path: &str, reason: &str) -> (r: Result<(), ProfileError>)
    ensures
        fault_of(r) == Some((path@, reason@)),
{
    Err(ProfileError { path: owned(path), reason: owned(reason) })
}

proof fn lemma_pow2_positive(n: nat)
    ensures
        pow2(n) >= 1,
    decreases n,
{
    if n > 0 {
        lemma_pow2_positive((n - 1) as nat);
    }
}

fn largest_code(bit_depth: u8) -> (r: u64)
    requires
        1 <= bit_depth <= 32,
    ensures
        r == pow2(bit_depth as nat) - 1,
{
    assert(pow2(32) == 0x1_0000_0000nat) by {
        reveal_with_fuel(pow2, 33);
    }
    let mut m: u64 = 1;
    let mut i: u8 = 0;
    while i < bit_depth
        invariant
            i <= bit_depth <= 32,
            m == pow2(i as nat),
            pow2((32 - i) as nat) * m == 0x1_0000_0000int,
        decreases bit_depth - i,
    {
        let ghost a = pow2((32 - i - 1) as nat);
        proof {
            lemma_pow2_positive((32 - i - 1) as nat);
        }
        assert(pow2((32 - i) as nat) == 2 * a);
        assert(m * 2 <= 0x1_0000_0000int && a * (m * 2) == 0x1_0000_0000int) by (nonlinear_arith)
            requires
                (2 * a) * m == 0x1_0000_0000int,
                a >= 1,
                m >= 0,
        {
        }
        m = m * 2;
        i = i + 1;
    }
    m - 1
}

/// Checks a digital sensor profile's data in the order its fields are
/// checked; the floating-point checks' outcomes are handed in.
#[verifier::loop_isolation(false)]
pub fn check_sensor_profile(
    width: u32,
    height: u32,
    sensor_size: Result<(), ProfileError>,
    bit_depth: u8,
    cfa: SensorCfa,
    custom_pattern: &Option<String>,
    black: u32,
    white: u32,
    iso: Result<(), ProfileError>,
    wavelengths: &Vec<u16>,
    channels: Vec<Result<(), ProfileError>>,
) -> (r: Result<(), ProfileError>)
    requires
        channels@.len() == wavelengths@.len(),
    ensures
        fault_of(r) == sensor_fault(
            width,
            height,
            fault_of(sensor_size),
            bit_depth,
            cfa,
            match custom_pattern {
                Some(p) => Some(p@),
                None => None,
            },
            black,
            white,
            fault_of(iso),
            wavelengths@,
            channels@.map_values(|c: Result<(), ProfileError>| fault_of(c)),
        ),
{
    let ghost cs = channels@.map_values(|c: Result<(), ProfileError>| fault_of(c));
    if width == 0 {
        return failure("$.data.active_width_pixels", "must be greater than zero");
    }
    if height == 0 {
        return failure("$.data.active_height_pixels", "must be greater than zero");
    }
    if sensor_size.is_err() {
        return sensor_size;
    }
    if !(1 <= bit_depth && bit_depth <= 32) {
        return failure("$.data.native_bit_depth", "must be between 1 and 32");
    }
    match custom_pattern {
        Some(p) => {
            if cfa == SensorCfa::Custom && is_blank(p.as_str()) {
                return failure("$.data.custom_cfa_pattern", "is required when cfa is custom");
            }
            if cfa != SensorCfa::Custom {
                return failure("$.data.custom_cfa_pattern", "is only valid when cfa is custom");
            }
        },
        None => {
            if cfa == SensorCfa::Custom {
                return failure("$.data.custom_cfa_pattern", "is required when cfa is custom");
            }
        },
    }
    if white <= black {
        return failure("$.data.white_level", "must be greater than black_level");
    }
    if white as u64 > largest_code(bit_depth) {
        return failure("$.data.white_level", "exceeds the native bit-depth code range");
    }
    if iso.is_err() {
        return iso;
    }
    if wavelengths.len() == 1 {
        return failure("$.data.spectral_sensitivity", "must be empty or contain at least two samples");
    }
    let mut rest = channels;
    let mut i: usize = 0;
    let n = wavelengths.len();
    let ghost all = channels@;
    while i < n
        invariant
            n == wavelengths@.len(),
            all.len() == n,
            cs == all.map_values(|c: Result<(), ProfileError>| fault_of(c)),
            i <= n,
            rest@ == all.subrange(i as int, n as int),
            samples_fault(wavelengths@, cs, 0) == samples_fault(wavelengths@, cs, i as int),
        decreases n - i,
    {
        let ghost path = wavelength_path(i as nat);
        let w = wavelengths[i];
        let current = rest.remove(0);
        assert(current == all[i as int]);
        if !(360 <= w && w <= 830) {
            let mut p = owned("$.data.spectral_sensitivity[");
            push_decimal(&mut p, i as u64);
            push_str(&mut p, "].wavelength_nm");
            return Err(ProfileError { path: p, reason: owned("must be between 360 and 830 nm") });
        }
        if current.is_err() {
            return current;
        }
        if i > 0 && w <= wavelengths[i - 1] {
            let mut p = owned("$.data.spectral_sensitivity[");
            push_decimal(&mut p, i as u64);
            push_str(&mut p, "].wavelength_nm");
            return Err(ProfileError { path: p, reason: owned("must be strictly greater than the previous sample") });
        }
        i = i + 1;
        assert(rest@ =~= all.subrange(i as int, n as int));
    }
    Ok(())
}

} // verus!
