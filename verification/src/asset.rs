//! Captured assets, their media resources, and validation against the selected capture format.
use vstd::prelude::*;
use vstd::string::*;
use crate::camera::{CameraError, CapturedMediaType, camera_error};
use crate::text::{owned, push_str, push_char, push_decimal, push_padded, decimal, padded_decimal, digit_char};
use crate::profiles::RenderProfileSnapshot;

verus! {

pub const CAPTURED_ASSET_SCHEMA_VERSION: u32 = 1;

#[derive(Debug, Clone, Copy, PartialEq, Eq, Structural)]
pub enum AssetState {
    Incomplete,
    Finalized,
    Failed,
}

#[derive(Debug, Clone, Copy, PartialEq, Eq, Structural)]
pub enum ValidationStatus {
    Passed,
    Warning,
    Failed,
}

#[derive(Debug, Clone, Copy, PartialEq, Eq, Structural)]
pub struct RationalRate {
    pub numerator: u64,
    pub denominator: u64,
}

#[derive(Debug, Clone, Copy, PartialEq, Eq, Structural)]
pub struct SelectedCaptureFormat {
    pub width: u32,
    pub height: u32,
    pub fps: RationalRate,
}

pub open spec fn opt_view(o: Option<String>) -> Option<Seq<char>> {
    match o {
        Some(s) => Some(s@),
        None => None,
    }
}

pub fn copy_opt_string(o: &Option<String>) -> (r: Option<String>)
    ensures
        r == *o,
{
    match o {
        Some(s) => Some(s.clone()),
        None => None,
    }
}

#[derive(Debug, Clone, PartialEq, Eq)]
pub struct CapturedColorMetadata {
    pub embedded_profile: Option<String>,
    pub color_primaries: Option<String>,
    pub transfer_characteristic: Option<String>,
    pub matrix_coefficients: Option<String>,
    pub full_range: Option<bool>,
}

impl Default for CapturedColorMetadata {
    fn default() -> (m: Self)
        ensures
            m.embedded_profile is None,
            m.color_primaries is None,
            m.transfer_characteristic is None,
            m.matrix_coefficients is None,
            m.full_range is None,
    {
        CapturedColorMetadata {
            embedded_profile: None,
            color_primaries: None,
            transfer_characteristic: None,
            matrix_coefficients: None,
            full_range: None,
        }
    }
}

/// Colour metadata with its texts as character sequences.
pub struct ColorView {
    pub embedded_profile: Option<Seq<char>>,
    pub color_primaries: Option<Seq<char>>,
    pub transfer_characteristic: Option<Seq<char>>,
    pub matrix_coefficients: Option<Seq<char>>,
    pub full_range: Option<bool>,
}

impl View for CapturedColorMetadata {
    type V = ColorView;

    open spec fn view(&self) -> ColorView {
        ColorView {
            embedded_profile: opt_view(self.embedded_profile),
            color_primaries: opt_view(self.color_primaries),
            transfer_characteristic: opt_view(self.transfer_characteristic),
            matrix_coefficients: opt_view(self.matrix_coefficients),
            full_range: self.full_range,
        }
    }
}

pub open spec fn no_color() -> ColorView {
    ColorView {
        embedded_profile: None,
        color_primaries: None,
        transfer_characteristic: None,
        matrix_coefficients: None,
        full_range: None,
    }
}

impl CapturedColorMetadata {
    pub open spec fn declared(&self) -> bool {
        self.embedded_profile is Some || self.color_primaries is Some
            || self.transfer_characteristic is Some || self.matrix_coefficients is Some
    }

    pub fn is_declared(&self) -> (b: bool)
        ensures
            b == self.declared(),
    {
        self.embedded_profile.is_some() || self.color_primaries.is_some()
            || self.transfer_characteristic.is_some() || self.matrix_coefficients.is_some()
    }

    pub fn duplicate(&self) -> (r: Self)
        ensures
            r == *self,
    {
        CapturedColorMetadata {
            embedded_profile: copy_opt_string(&self.embedded_profile),
            color_primaries: copy_opt_string(&self.color_primaries),
            transfer_characteristic: copy_opt_string(&self.transfer_characteristic),
            matrix_coefficients: copy_opt_string(&self.matrix_coefficients),
            full_range: self.full_range,
        }
    }
}

#[derive(Debug, Clone, PartialEq, Eq)]
pub struct MediaResource {
    pub path: String,
    pub byte_length: u64,
    pub container: String,
    pub video_codec: Option<String>,
    pub audio_codec: Option<String>,
    pub pixel_width: u32,
    pub pixel_height: u32,
    pub bit_depth: Option<u16>,
    /// EXIF orientation value (1–8). Video resources use 1 and carry their
    /// container transform in `rotation_degrees` / `mirrored`.
    pub orientation: u16,
    pub orientation_explicit: bool,
    pub rotation_degrees: u16,
    pub mirrored: bool,
    pub frame_rate: Option<RationalRate>,
    pub duration_ms: Option<u64>,
    pub audio_channels: Option<u16>,
    pub audio_sample_rate_hz: Option<u32>,
    pub color: CapturedColorMetadata,
}

/// A media resource with its texts as character sequences.
pub struct ResourceView {
    pub path: Seq<char>,
    pub byte_length: u64,
    pub container: Seq<char>,
    pub video_codec: Option<Seq<char>>,
    pub audio_codec: Option<Seq<char>>,
    pub pixel_width: u32,
    pub pixel_height: u32,
    pub bit_depth: Option<u16>,
    pub orientation: u16,
    pub orientation_explicit: bool,
    pub rotation_degrees: u16,
    pub mirrored: bool,
    pub frame_rate: Option<RationalRate>,
    pub duration_ms: Option<u64>,
    pub audio_channels: Option<u16>,
    pub audio_sample_rate_hz: Option<u32>,
    pub color: ColorView,
}

impl View for MediaResource {
    type V = ResourceView;

    open spec fn view(&self) -> ResourceView {
        ResourceView {
            path: self.path@,
            byte_length: self.byte_length,
            container: self.container@,
            video_codec: opt_view(self.video_codec),
            audio_codec: opt_view(self.audio_codec),
            pixel_width: self.pixel_width,
            pixel_height: self.pixel_height,
            bit_depth: self.bit_depth,
            orientation: self.orientation,
            orientation_explicit: self.orientation_explicit,
            rotation_degrees: self.rotation_degrees,
            mirrored: self.mirrored,
            frame_rate: self.frame_rate,
            duration_ms: self.duration_ms,
            audio_channels: self.audio_channels,
            audio_sample_rate_hz: self.audio_sample_rate_hz,
            color: self.color@,
        }
    }
}

impl MediaResource {
    pub fn duplicate(&self) -> (r: Self)
        ensures
            r == *self,
    {
        MediaResource {
            path: self.path.clone(),
            byte_length: self.byte_length,
            container: self.container.clone(),
            video_codec: copy_opt_string(&self.video_codec),
            audio_codec: copy_opt_string(&self.audio_codec),
            pixel_width: self.pixel_width,
            pixel_height: self.pixel_height,
            bit_depth: self.bit_depth,
            orientation: self.orientation,
            orientation_explicit: self.orientation_explicit,
            rotation_degrees: self.rotation_degrees,
            mirrored: self.mirrored,
            frame_rate: self.frame_rate,
            duration_ms: self.duration_ms,
            audio_channels: self.audio_channels,
            audio_sample_rate_hz: self.audio_sample_rate_hz,
            color: self.color.duplicate(),
        }
    }
}

#[derive(Debug, Clone, PartialEq, Eq)]
pub struct CaptureMetadata {
    pub device_id: String,
    pub selected_format: SelectedCaptureFormat,
}

/// A provenance record as plain values.
pub open spec fn provenance_view(p: DerivativeProvenance) -> (
    Seq<char>,
    (u32, Seq<char>, Seq<char>, Seq<crate::profiles::ProfileSnapshotEntry>, Seq<char>),
    Seq<char>,
    u64,
) {
    (p.parent_resource_id@, crate::profiles::snapshot_view(p.render_snapshot), p.engine_version@, p.seed)
}

impl DerivativeProvenance {
    pub fn duplicate(&self) -> (r: Self)
        ensures
            provenance_view(r) == provenance_view(*self),
    {
        DerivativeProvenance {
            parent_resource_id: self.parent_resource_id.clone(),
            render_snapshot: self.render_snapshot.duplicate(),
            engine_version: self.engine_version.clone(),
            seed: self.seed,
        }
    }
}

impl CaptureMetadata {
    pub fn duplicate(&self) -> (r: Self)
        ensures
            r == *self,
    {
        CaptureMetadata { device_id: self.device_id.clone(), selected_format: self.selected_format }
    }
}

#[derive(Debug, Clone, PartialEq, Eq)]
pub struct ValidationCheck {
    pub name: String,
    pub status: ValidationStatus,
    pub expected: Option<String>,
    pub actual: Option<String>,
}

/// A validation check with its texts as character sequences.
pub struct CheckView {
    pub name: Seq<char>,
    pub status: ValidationStatus,
    pub expected: Option<Seq<char>>,
    pub actual: Option<Seq<char>>,
}

impl View for ValidationCheck {
    type V = CheckView;

    open spec fn view(&self) -> CheckView {
        CheckView {
            name: self.name@,
            status: self.status,
            expected: opt_view(self.expected),
            actual: opt_view(self.actual),
        }
    }
}

#[derive(Debug, Clone, PartialEq, Eq)]
pub struct AssetValidation {
    pub status: ValidationStatus,
    pub checks: Vec<ValidationCheck>,
}

#[derive(Debug, Clone, Copy, PartialEq, Eq, Structural)]
pub enum DerivativePurpose {
    Processed,
}

/// Where a derived resource came from and how it was rendered.
#[derive(Debug, Clone, PartialEq, Eq)]
pub struct DerivativeProvenance {
    pub parent_resource_id: String,
    pub render_snapshot: RenderProfileSnapshot,
    pub engine_version: String,
    pub seed: u64,
}

/// A resource rendered from another resource of the same asset.
#[derive(Debug, Clone, PartialEq, Eq)]
pub struct CapturedDerivative {
    pub resource_id: String,
    pub purpose: DerivativePurpose,
    pub resource: MediaResource,
    pub provenance: DerivativeProvenance,
}

#[derive(Debug, Clone, PartialEq, Eq)]
pub struct CapturedAsset {
    pub schema_version: u32,
    pub id: String,
    pub media_type: CapturedMediaType,
    pub state: AssetState,
    pub original_resource_id: String,
    pub original: MediaResource,
    pub derivatives: Vec<CapturedDerivative>,
    pub capture: CaptureMetadata,
    pub validation: AssetValidation,
    pub created_at_utc: String,
}

// ---------------------------------------------------------------------------
// Orientation, container transform matrices and frame-rate reduction.

/// Rotation and mirroring that an EXIF orientation value (1-8) describes.
pub open spec fn exif_transform_spec(orientation: u16) -> (u16, bool) {
    if orientation == 2 {
        (0, true)
    } else if orientation == 3 {
        (180, false)
    } else if orientation == 4 {
        (180, true)
    } else if orientation == 5 {
        (90, true)
    } else if orientation == 6 {
        (90, false)
    } else if orientation == 7 {
        (270, true)
    } else if orientation == 8 {
        (270, false)
    } else {
        (0, false)
    }
}

pub fn exif_transform(orientation: u16) -> (r: (u16, bool))
    ensures
        r == exif_transform_spec(orientation),
{
    match orientation {
        2 => (0, true),
        3 => (180, false),
        4 => (180, true),
        5 => (90, true),
        6 => (90, false),
        7 => (270, true),
        8 => (270, false),
        _ => (0, false),
    }
}

/// An edge of an image, as it is stored or as it is shown.
pub enum ImageEdge {
    Top,
    Right,
    Bottom,
    Left,
}

/// Where an edge ends up after the image is turned a quarter turn clockwise
/// `quarter_turns` times.
pub open spec fn turned_clockwise(edge: ImageEdge, quarter_turns: nat) -> ImageEdge
    decreases quarter_turns,
{
    if quarter_turns == 0 {
        edge
    } else {
        let once = match edge {
            ImageEdge::Top => ImageEdge::Right,
            ImageEdge::Right => ImageEdge::Bottom,
            ImageEdge::Bottom => ImageEdge::Left,
            ImageEdge::Left => ImageEdge::Top,
        };
        turned_clockwise(once, (quarter_turns - 1) as nat)
    }
}

/// Where an edge ends up after the image is mirrored left to right.
pub open spec fn mirrored_edge(edge: ImageEdge) -> ImageEdge {
    match edge {
        ImageEdge::Left => ImageEdge::Right,
        ImageEdge::Right => ImageEdge::Left,
        other => other,
    }
}

/// Where a stored edge is shown once the image is turned clockwise by
/// `rotation_degrees` and then, if `mirrored`, mirrored left to right.
pub open spec fn shown_edge(edge: ImageEdge, rotation_degrees: u16, mirrored: bool) -> ImageEdge {
    let turned = turned_clockwise(edge, (rotation_degrees / 90) as nat);
    if mirrored {
        mirrored_edge(turned)
    } else {
        turned
    }
}

/// The TIFF/EXIF meaning of an orientation value: the visual edges on which
/// the stored image's first row and first column lie (values outside 1-8
/// are read as 1, the image shown as stored).
pub open spec fn exif_first_row_and_column(orientation: u16) -> (ImageEdge, ImageEdge) {
    match orientation {
        2 => (ImageEdge::Top, ImageEdge::Right),
        3 => (ImageEdge::Bottom, ImageEdge::Right),
        4 => (ImageEdge::Bottom, ImageEdge::Left),
        5 => (ImageEdge::Left, ImageEdge::Top),
        6 => (ImageEdge::Right, ImageEdge::Top),
        7 => (ImageEdge::Right, ImageEdge::Bottom),
        8 => (ImageEdge::Left, ImageEdge::Bottom),
        _ => (ImageEdge::Top, ImageEdge::Left),
    }
}

/// The rotation and mirroring read from an EXIF orientation show the image
/// as the orientation says: turning the stored image clockwise by the
/// rotation (a quarter-turn multiple below 360) and then mirroring it if
/// asked puts its first row and first column on the edges the TIFF
/// definition of the orientation names. So 6 and 8 turn opposite ways, 90
/// and 270 degrees.
pub proof fn law_exif_transform_shows_the_orientation(orientation: u16)
    ensures
        ({
            let (rotation, mirrored) = exif_transform_spec(orientation);
            &&& rotation % 90 == 0
            &&& rotation < 360
            &&& shown_edge(ImageEdge::Top, rotation, mirrored) == exif_first_row_and_column(orientation).0
            &&& shown_edge(ImageEdge::Left, rotation, mirrored) == exif_first_row_and_column(orientation).1
        }),
{
    reveal_with_fuel(turned_clockwise, 4);
}

/// A 16.16 fixed-point matrix entry rounded to -1, 0 or 1 (in units of 1.0).
pub open spec fn unit_sign(value: int) -> int {
    if -256 < value && value < 256 {
        0
    } else if value > 0 {
        1
    } else {
        -1
    }
}

/// Rotation and mirroring of a movie track matrix `[a b; c d]`.
pub open spec fn matrix_transform_spec(a: int, b: int, c: int, d: int) -> (u16, bool) {
    let (a, b, c, d) = (unit_sign(a), unit_sign(b), unit_sign(c), unit_sign(d));
    let rotation: u16 = if a == 0 && d == 0 && b > 0 && c < 0 {
        90
    } else if b == 0 && c == 0 && a < 0 && d < 0 {
        180
    } else if a == 0 && d == 0 && b < 0 && c > 0 {
        270
    } else {
        0
    };
    (rotation, a * d - b * c < 0)
}

fn normalize_unit(value: i32) -> (r: i64)
    ensures
        r == unit_sign(value as int),
{
    if -256 < value && value < 256 {
        0
    } else if value > 0 {
        1
    } else {
        -1
    }
}

pub fn matrix_transform(a: i32, b: i32, c: i32, d: i32) -> (r: (u16, bool))
    ensures
        r == matrix_transform_spec(a as int, b as int, c as int, d as int),
{
    let (na, nb, nc, nd) = (normalize_unit(a), normalize_unit(b), normalize_unit(c), normalize_unit(d));
    let rotation: u16 = if na == 0 && nd == 0 && nb > 0 && nc < 0 {
        90
    } else if nb == 0 && nc == 0 && na < 0 && nd < 0 {
        180
    } else if na == 0 && nd == 0 && nb < 0 && nc > 0 {
        270
    } else {
        0
    };
    assert(-1 <= na * nd <= 1 && -1 <= nb * nc <= 1) by (nonlinear_arith)
        requires
            -1 <= na <= 1,
            -1 <= nb <= 1,
            -1 <= nc <= 1,
            -1 <= nd <= 1,
    ;
    let determinant = na * nd - nb * nc;
    (rotation, determinant < 0)
}

/// Greatest common divisor by Euclid's algorithm.
pub open spec fn gcd_spec(a: nat, b: nat) -> nat
    decreases b,
{
    if b == 0 {
        a
    } else {
        gcd_spec(b, a % b)
    }
}

pub proof fn lemma_gcd_divides(a: nat, b: nat)
    ensures
        gcd_spec(a, b) == 0 <==> (a == 0 && b == 0),
        gcd_spec(a, b) > 0 ==> a % gcd_spec(a, b) == 0 && b % gcd_spec(a, b) == 0,
    decreases b,
{
    if b == 0 {
        if a > 0 {
            vstd::arithmetic::div_mod::lemma_mod_self_0(a as int);
            assert(0nat % a == 0) by (nonlinear_arith) requires a > 0;
        }
    } else {
        lemma_gcd_divides(b, a % b);
        let g = gcd_spec(b, a % b);
        if g > 0 {
            let (ai, bi, gi) = (a as int, b as int, g as int);
            let q = ai / bi;
            let r = ai % bi;
            vstd::arithmetic::div_mod::lemma_fundamental_div_mod(ai, bi);
            vstd::arithmetic::div_mod::lemma_fundamental_div_mod(bi, gi);
            vstd::arithmetic::div_mod::lemma_fundamental_div_mod(r, gi);
            let bq = bi / gi;
            let rq = r / gi;
            assert(ai == (q * bq + rq) * gi) by (nonlinear_arith)
                requires
                    ai == bi * q + r,
                    bi == gi * bq,
                    r == gi * rq,
            ;
            vstd::arithmetic::div_mod::lemma_mod_multiples_basic(q * bq + rq, gi);
        }
    }
}

pub fn gcd(a: u64, b: u64) -> (r: u64)
    ensures
        r == gcd_spec(a as nat, b as nat),
{
    let ghost (a0, b0) = (a, b);
    let mut a = a;
    let mut b = b;
    while b != 0
        invariant
            gcd_spec(a as nat, b as nat) == gcd_spec(a0 as nat, b0 as nat),
        decreases b,
    {
        let next = a % b;
        a = b;
        b = next;
    }
    a
}

/// The rate with numerator and denominator divided by their greatest common
/// divisor (by one when both are zero).
pub open spec fn reduce_rate_spec(numerator: u64, denominator: u64) -> RationalRate {
    let g = gcd_spec(numerator as nat, denominator as nat);
    let divisor: nat = if g > 1 { g } else { 1 };
    RationalRate {
        numerator: (numerator as nat / divisor) as u64,
        denominator: (denominator as nat / divisor) as u64,
    }
}

pub fn reduce_rate(numerator: u64, denominator: u64) -> (r: RationalRate)
    ensures
        r == reduce_rate_spec(numerator, denominator),
{
    let g = gcd(numerator, denominator);
    let divisor = if g > 1 { g } else { 1 };
    RationalRate { numerator: numerator / divisor, denominator: denominator / divisor }
}

/// Reducing a rate keeps its value: both parts are divided exactly by the
/// same positive divisor.
pub proof fn law_reduce_rate_preserves_ratio(numerator: u64, denominator: u64)
    ensures
        ({
            let r = reduce_rate_spec(numerator, denominator);
            let g = gcd_spec(numerator as nat, denominator as nat);
            let divisor: nat = if g > 1 { g } else { 1 };
            &&& r.numerator * divisor == numerator
            &&& r.denominator * divisor == denominator
            &&& r.numerator * denominator == r.denominator * numerator
        }),
{
    lemma_gcd_divides(numerator as nat, denominator as nat);
    let g = gcd_spec(numerator as nat, denominator as nat);
    let divisor: nat = if g > 1 { g } else { 1 };
    vstd::arithmetic::div_mod::lemma_fundamental_div_mod(numerator as int, divisor as int);
    vstd::arithmetic::div_mod::lemma_fundamental_div_mod(denominator as int, divisor as int);
    if g <= 1 {
        assert(numerator as nat / 1 == numerator) by (nonlinear_arith);
        assert(denominator as nat / 1 == denominator) by (nonlinear_arith);
    }
    let p = numerator as nat / divisor;
    let q = denominator as nat / divisor;
    assert(p * divisor == numerator) by (nonlinear_arith)
        requires
            numerator == divisor * p + numerator as nat % divisor,
            numerator as nat % divisor == 0,
    ;
    assert(q * divisor == denominator) by (nonlinear_arith)
        requires
            denominator == divisor * q + denominator as nat % divisor,
            denominator as nat % divisor == 0,
    ;
    assert(p * denominator == q * numerator) by (nonlinear_arith)
        requires
            p * divisor == numerator,
            q * divisor == denominator,
    ;
}


// ---------------------------------------------------------------------------
// Codec and colour vocabulary.

/// `String::from_utf8_lossy` over a byte sequence: named, since the
/// replacement rules for invalid sequences take pages to state.
pub uninterp spec fn utf8_lossy(bytes: Seq<u8>) -> Seq<char>;

pub open spec fn all_ascii(bytes: Seq<u8>) -> bool {
    forall|i: int| 0 <= i < bytes.len() ==> #[trigger] bytes[i] < 0x80
}

pub open spec fn ascii_chars(bytes: Seq<u8>) -> Seq<char> {
    Seq::new(bytes.len(), |i: int| bytes[i] as char)
}

/// Decodes bytes as UTF-8 with U+FFFD for invalid sequences
/// (`String::from_utf8_lossy`). Trusted: the result is the named decoding
/// of the bytes, and ASCII bytes decode to the same characters.
#[verifier::external_body]
fn decode_lossy(bytes: &[u8]) -> (r: String)
    ensures
        r@ == utf8_lossy(bytes@),
        all_ascii(bytes@) ==> r@ == ascii_chars(bytes@),
{
    String::from_utf8_lossy(bytes).into_owned()
}

pub open spec fn four(kind: Seq<u8>, a: char, b: char, c: char, d: char) -> bool {
    kind.len() == 4 && kind[0] == a as u8 && kind[1] == b as u8 && kind[2] == c as u8 && kind[3] == d as u8
}

/// Codec label of a sample-entry four-character code.
pub open spec fn codec_label(kind: Seq<u8>) -> Seq<char> {
    if four(kind, 'a', 'v', 'c', '1') || four(kind, 'a', 'v', 'c', '3') {
        "h264"@
    } else if four(kind, 'h', 'v', 'c', '1') || four(kind, 'h', 'e', 'v', '1') {
        "hevc"@
    } else if four(kind, 'm', 'p', '4', 'a') {
        "aac"@
    } else if four(kind, 'l', 'p', 'c', 'm') || four(kind, 's', 'o', 'w', 't') || four(
        kind,
        't',
        'w',
        'o',
        's',
    ) {
        "pcm"@
    } else {
        crate::text::trimmed(utf8_lossy(kind))
    }
}

fn is_code(kind: &[u8; 4], a: u8, b: u8, c: u8, d: u8) -> (r: bool)
    ensures
        r == (kind@[0] == a && kind@[1] == b && kind@[2] == c && kind@[3] == d),
{
    kind[0] == a && kind[1] == b && kind[2] == c && kind[3] == d
}

pub fn codec_name(kind: [u8; 4]) -> (r: String)
    ensures
        r@ == codec_label(kind@),
{
    if is_code(&kind, 0x61, 0x76, 0x63, 0x31) || is_code(&kind, 0x61, 0x76, 0x63, 0x33) {
        owned("h264")
    } else if is_code(&kind, 0x68, 0x76, 0x63, 0x31) || is_code(&kind, 0x68, 0x65, 0x76, 0x31) {
        owned("hevc")
    } else if is_code(&kind, 0x6d, 0x70, 0x34, 0x61) {
        owned("aac")
    } else if is_code(&kind, 0x6c, 0x70, 0x63, 0x6d) || is_code(&kind, 0x73, 0x6f, 0x77, 0x74)
        || is_code(&kind, 0x74, 0x77, 0x6f, 0x73) {
        owned("pcm")
    } else {
        let text = decode_lossy(&kind);
        let t = crate::text::trim(text.as_str());
        crate::text::string_of(&t)
    }
}

pub open spec fn color_primaries_label(value: u16) -> Seq<char> {
    if value == 1 {
        "bt709"@
    } else if value == 9 {
        "bt2020"@
    } else if value == 12 {
        "display_p3"@
    } else {
        "unknown"@
    }
}

pub fn color_primaries(value: u16) -> (r: String)
    ensures
        r@ == color_primaries_label(value),
{
    owned(
        match value {
            1 => "bt709",
            9 => "bt2020",
            12 => "display_p3",
            _ => "unknown",
        },
    )
}

pub open spec fn transfer_label(value: u16) -> Seq<char> {
    if value == 1 {
        "bt709"@
    } else if value == 13 {
        "srgb"@
    } else if value == 16 {
        "pq"@
    } else if value == 18 {
        "hlg"@
    } else {
        "unknown"@
    }
}

pub fn transfer_characteristic(value: u16) -> (r: String)
    ensures
        r@ == transfer_label(value),
{
    owned(
        match value {
            1 => "bt709",
            13 => "srgb",
            16 => "pq",
            18 => "hlg",
            _ => "unknown",
        },
    )
}

pub open spec fn matrix_label(value: u16) -> Seq<char> {
    if value == 0 {
        "identity"@
    } else if value == 1 {
        "bt709"@
    } else if value == 6 {
        "smpte170m"@
    } else if value == 9 {
        "bt2020_ncl"@
    } else if value == 10 {
        "bt2020_cl"@
    } else {
        "unknown"@
    }
}

pub fn matrix_coefficients(value: u16) -> (r: String)
    ensures
        r@ == matrix_label(value),
{
    owned(
        match value {
            0 => "identity",
            1 => "bt709",
            6 => "smpte170m",
            9 => "bt2020_ncl",
            10 => "bt2020_cl",
            _ => "unknown",
        },
    )
}

// ---------------------------------------------------------------------------
// Calendar.

/// Proleptic Gregorian (year, month, day) of a day count since 1970-01-01.
pub open spec fn civil_from_days_spec(days: int) -> (int, int, int) {
    let z = days + 719468;
    let era = z / 146097;
    let doe = z - era * 146097;
    let yoe = (doe - doe / 1460 + doe / 36524 - doe / 146096) / 365;
    let year = yoe + era * 400;
    let doy = doe - (365 * yoe + yoe / 4 - yoe / 100);
    let mp = (5 * doy + 2) / 153;
    let day = doy - (153 * mp + 2) / 5 + 1;
    let month = if mp < 10 { mp + 3 } else { mp - 9 };
    (if month <= 2 { year + 1 } else { year }, month, day)
}

proof fn lemma_floor_div_negative(z: int)
    requires
        z < 0,
    ensures
        -((146096 - z) / 146097) == z / 146097,
{
    let q = z / 146097;
    let r = z % 146097;
    vstd::arithmetic::div_mod::lemma_fundamental_div_mod(z, 146097);
    let w = 146096 - z;
    assert(w == 146097 * (-q) + (146096 - r));
    assert(0 <= 146096 - r < 146097);
    vstd::arithmetic::div_mod::lemma_fundamental_div_mod_converse(w, 146097, -q, 146096 - r);
}

#[verifier::rlimit(40)]
pub fn civil_from_days(days_since_epoch: i64) -> (r: (i64, i64, i64))
    requires
        days_since_epoch <= i64::MAX - 719468,
    ensures
        (r.0 as int, r.1 as int, r.2 as int) == civil_from_days_spec(days_since_epoch as int),
        1 <= r.1 <= 12,
        1 <= r.2 <= 31,
{
    let z: i64 = days_since_epoch + 719468;
    let era: i64 = if z >= 0 {
        z / 146097
    } else {
        proof {
            lemma_floor_div_negative(z as int);
        }
        -((146096 - z) / 146097)
    };
    assert(era as int == (z as int) / 146097);
    proof { vstd::arithmetic::div_mod::lemma_fundamental_div_mod(z as int, 146097); }
    let doe: i64 = z - era * 146097;
    assert(0 <= doe < 146097);
    let yoe: i64 = (doe - doe / 1460 + doe / 36524 - doe / 146096) / 365;
    assert(0 <= yoe <= 399);
    let year: i64 = yoe + era * 400;
    let doy: i64 = doe - (365 * yoe + yoe / 4 - yoe / 100);
    assert(0 <= doy <= 365);
    let mp: i64 = (5 * doy + 2) / 153;
    let day: i64 = doy - (153 * mp + 2) / 5 + 1;
    let month: i64 = if mp < 10 { mp + 3 } else { mp - 9 };
    let year: i64 = if month <= 2 { year + 1 } else { year };
    (year, month, day)
}

/// `{:04}` of a signed year: zero padded to four characters, sign included.
pub open spec fn year_text(year: int) -> Seq<char> {
    if year >= 0 {
        padded_decimal(year as nat, 4)
    } else {
        seq!['-'] + padded_decimal((-year) as nat, 3)
    }
}

/// `YYYY-MM-DDTHH:MM:SS.mmmZ` for the given fields.
pub open spec fn stamp_text(y: int, m: nat, d: nat, h: nat, mi: nat, sec: nat, ms: nat) -> Seq<char> {
    year_text(y) + "-"@ + padded_decimal(m, 2) + "-"@ + padded_decimal(d, 2) + "T"@
        + padded_decimal(h, 2) + ":"@ + padded_decimal(mi, 2) + ":"@ + padded_decimal(sec, 2) + "."@
        + padded_decimal(ms, 3) + "Z"@
}

/// RFC 3339 UTC timestamp with milliseconds for a signed Unix time.
pub open spec fn rfc3339_text(seconds: int, millis: nat) -> Seq<char> {
    let days = seconds / 86400;
    let sod = seconds % 86400;
    let (y, m, d) = civil_from_days_spec(days);
    stamp_text(y, m as nat, d as nat, (sod / 3600) as nat, (sod % 3600 / 60) as nat, (sod % 60) as nat, millis)
}

fn format_stamp(y: i64, m: u64, d: u64, h: u64, mi: u64, sec: u64, ms: u64) -> (r: String)
    ensures
        r@ == stamp_text(y as int, m as nat, d as nat, h as nat, mi as nat, sec as nat, ms as nat),
{
    let mut out = String::new();
    if y >= 0 {
        push_padded(&mut out, y as u64, 4);
    } else {
        push_char(&mut out, '-');
        push_padded(&mut out, (-(y as i128)) as u64, 3);
        assert(out@ =~= seq!['-'] + padded_decimal((-y) as nat, 3));
    }
    let ghost yt = out@;
    assert(yt == year_text(y as int));
    push_char(&mut out, '-');
    push_padded(&mut out, m, 2);
    push_char(&mut out, '-');
    push_padded(&mut out, d, 2);
    push_char(&mut out, 'T');
    push_padded(&mut out, h, 2);
    push_char(&mut out, ':');
    push_padded(&mut out, mi, 2);
    push_char(&mut out, ':');
    push_padded(&mut out, sec, 2);
    push_char(&mut out, '.');
    push_padded(&mut out, ms, 3);
    push_char(&mut out, 'Z');
    proof {
        reveal_strlit("-");
        reveal_strlit("T");
        reveal_strlit(":");
        reveal_strlit(".");
        reveal_strlit("Z");
        assert(out@ =~= stamp_text(y as int, m as nat, d as nat, h as nat, mi as nat, sec as nat, ms as nat));
    }
    out
}

fn split_unix(seconds: i64) -> (r: (i64, i64))
    ensures
        r.0 as int == (seconds as int) / 86400,
        r.1 as int == (seconds as int) % 86400,
{
    proof {
        vstd::arithmetic::div_mod::lemma_fundamental_div_mod(seconds as int, 86400);
    }
    if seconds >= 0 {
        (seconds / 86400, seconds % 86400)
    } else {
        let w: i64 = -(seconds + 1);
        let q: i64 = w / 86400;
        let rem: i64 = w % 86400;
        proof {
            vstd::arithmetic::div_mod::lemma_fundamental_div_mod(w as int, 86400);
            vstd::arithmetic::div_mod::lemma_fundamental_div_mod_converse(
                seconds as int,
                86400,
                -(q as int) - 1,
                86399 - (w as int % 86400),
            );
        }
        (-q - 1, 86399 - rem)
    }
}

/// Formats a Unix time (whole seconds and the millisecond part) as the
/// timestamp that captured assets and media records carry.
pub fn rfc3339_from_unix(seconds: i64, millis: u32) -> (r: String)
    ensures
        r@ == rfc3339_text(seconds as int, millis as nat),
{
    let (days, sod) = split_unix(seconds);
    let (year, month, day) = civil_from_days(days);
    format_stamp(
        year,
        month as u64,
        day as u64,
        (sod / 3600) as u64,
        (sod % 3600 / 60) as u64,
        (sod % 60) as u64,
        millis as u64,
    )
}

// ---------------------------------------------------------------------------
// Validation of a probed resource against the selected capture format.

/// The rate's value to three decimal places, rounding exact halves to even
/// (`{:.3}` of the quotient); `inf` and `NaN` for a zero denominator.
pub open spec fn rate_text(r: RationalRate) -> Seq<char> {
    if r.denominator == 0 {
        if r.numerator == 0 {
            "NaN"@
        } else {
            "inf"@
        }
    } else {
        let v = thousandths(r.numerator as nat, r.denominator as nat);
        decimal(v / 1000) + "."@ + padded_decimal(v % 1000, 3)
    }
}

/// `n / d` in thousandths, rounded to nearest with ties to even.
pub open spec fn thousandths(n: nat, d: nat) -> nat {
    let q = (n * 1000) / d;
    let r = (n * 1000) % d;
    if 2 * r > d || (2 * r == d && q % 2 == 1) {
        q + 1
    } else {
        q
    }
}

/// Two rates are within 0.12 frames per second of each other.
pub open spec fn rate_close(actual: RationalRate, expected: RationalRate) -> bool {
    let a = actual.numerator as int;
    let b = actual.denominator as int;
    let c = expected.numerator as int;
    let d = expected.denominator as int;
    b > 0 && d > 0 && 25 * (if a * d >= c * b { a * d - c * b } else { c * b - a * d }) <= 3 * b * d
}

fn push_rate(out: &mut String, r: RationalRate)
    ensures
        final(out)@ == old(out)@ + rate_text(r),
{
    proof {
        reveal_strlit("NaN");
        reveal_strlit("inf");
        reveal_strlit(".");
    }
    if r.denominator == 0 {
        if r.numerator == 0 {
            push_str(out, "NaN");
        } else {
            push_str(out, "inf");
        }
        return;
    }
    let n = r.numerator as u128;
    let d = r.denominator as u128;
    let scaled = n * 1000;
    let q = scaled / d;
    let rem = scaled % d;
    let v: u128 = if 2 * rem > d || (2 * rem == d && q % 2 == 1) { q + 1 } else { q };
    proof {
        vstd::arithmetic::div_mod::lemma_fundamental_div_mod(scaled as int, d as int);
        assert(q <= scaled) by (nonlinear_arith)
            requires
                scaled == d * q + rem,
                d >= 1,
                rem >= 0,
                q >= 0,
        ;
        assert(v / 1000 <= n) by (nonlinear_arith)
            requires
                v <= n * 1000 + 1,
        ;
    }
    let whole = (v / 1000) as u64;
    let part = (v % 1000) as u64;
    push_decimal(out, whole);
    push_char(out, '.');
    push_padded(out, part, 3);
    assert(out@ =~= old(out)@ + rate_text(r));
}

proof fn lemma_scaled_compare(x: nat, y: nat)
    ensures
        (25 * x <= 3 * y) <==> (x <= 3 * (y / 25) + (3 * (y % 25)) / 25),
{
    vstd::arithmetic::div_mod::lemma_fundamental_div_mod(y as int, 25);
    let k = (3 * (y % 25)) / 25;
    vstd::arithmetic::div_mod::lemma_fundamental_div_mod((3 * (y % 25)) as int, 25);
    assert((25 * x <= 3 * y) <==> (x <= 3 * (y / 25) + k)) by (nonlinear_arith)
        requires
            y == 25 * (y / 25) + y % 25,
            0 <= y % 25 < 25,
            3 * (y % 25) == 25 * k + (3 * (y % 25)) % 25,
            0 <= (3 * (y % 25)) % 25 < 25,
            k >= 0,
    ;
}

fn rates_close(actual: RationalRate, expected: RationalRate) -> (b: bool)
    ensures
        b == rate_close(actual, expected),
{
    if actual.denominator == 0 || expected.denominator == 0 {
        return false;
    }
    let a = actual.numerator as u128;
    let b = actual.denominator as u128;
    let c = expected.numerator as u128;
    let d = expected.denominator as u128;
    assert(a * d < 0x1_0000_0000_0000_0000_0000_0000_0000_0000 && c * b
        < 0x1_0000_0000_0000_0000_0000_0000_0000_0000 && b * d
        < 0x1_0000_0000_0000_0000_0000_0000_0000_0000) by (nonlinear_arith)
        requires
            a < 0x1_0000_0000_0000_0000,
            b < 0x1_0000_0000_0000_0000,
            c < 0x1_0000_0000_0000_0000,
            d < 0x1_0000_0000_0000_0000,
    ;
    let ad = a * d;
    let cb = c * b;
    let x = if ad >= cb { ad - cb } else { cb - ad };
    let y = b * d;
    proof {
        lemma_scaled_compare(x as nat, y as nat);
        assert(3 * b * d == 3 * (b * d)) by (nonlinear_arith);
    }
    x <= 3 * (y / 25) + (3 * (y % 25)) / 25
}

pub open spec fn check_view(name: Seq<char>, passed: bool, expected: Seq<char>, actual: Seq<char>) -> CheckView {
    CheckView {
        name,
        status: if passed {
            ValidationStatus::Passed
        } else {
            ValidationStatus::Failed
        },
        expected: Some(expected),
        actual: Some(actual),
    }
}

pub fn check(name: &str, passed: bool, expected: String, actual: String) -> (c: ValidationCheck)
    ensures
        c@ == check_view(name@, passed, expected@, actual@),
{
    ValidationCheck {
        name: owned(name),
        status: if passed {
            ValidationStatus::Passed
        } else {
            ValidationStatus::Failed
        },
        expected: Some(expected),
        actual: Some(actual),
    }
}

pub open spec fn dimensions_match(r: MediaResource, s: SelectedCaptureFormat) -> bool {
    (r.pixel_width == s.width && r.pixel_height == s.height) || ((r.rotation_degrees == 90
        || r.rotation_degrees == 270) && r.pixel_width == s.height && r.pixel_height == s.width)
}

pub open spec fn container_matches(media_type: CapturedMediaType, container: Seq<char>) -> bool {
    (media_type == CapturedMediaType::Photo && container == "jpeg"@) || (media_type
        == CapturedMediaType::Video && (container == "quicktime"@ || container == "mp4"@))
}

pub open spec fn dims_text(w: nat, h: nat) -> Seq<char> {
    decimal(w) + "x"@ + decimal(h)
}

/// The checks a resource is put through, in order.
pub open spec fn resource_checks(
    r: MediaResource,
    media_type: CapturedMediaType,
    s: SelectedCaptureFormat,
) -> Seq<CheckView> {
    let video = media_type == CapturedMediaType::Video;
    let base = seq![
        check_view(
            "pixel_dimensions"@,
            dimensions_match(r, s),
            dims_text(s.width as nat, s.height as nat),
            dims_text(r.pixel_width as nat, r.pixel_height as nat),
        ),
        check_view(
            "container"@,
            container_matches(media_type, r.container@),
            if video { "quicktime/mp4"@ } else { "jpeg"@ },
            r.container@,
        ),
        check_view(
            "video_codec"@,
            !video || r.video_codec is Some,
            if video { "declared"@ } else { "not_applicable"@ },
            match r.video_codec {
                Some(c) => c@,
                None => "not_applicable"@,
            },
        ),
    ];
    let timing = if video {
        seq![
            check_view(
                "frame_rate"@,
                r.frame_rate matches Some(f) && rate_close(f, s.fps),
                rate_text(s.fps),
                match r.frame_rate {
                    Some(f) => rate_text(f),
                    None => "missing"@,
                },
            ),
            check_view(
                "positive_duration"@,
                r.duration_ms matches Some(v) && v > 0,
                ">0ms"@,
                match r.duration_ms {
                    Some(v) => decimal(v as nat) + "ms"@,
                    None => "missing"@,
                },
            ),
            check_view(
                "audio_track"@,
                r.audio_codec is Some,
                "declared"@,
                match r.audio_codec {
                    Some(c) => c@,
                    None => "missing"@,
                },
            ),
        ]
    } else {
        Seq::<CheckView>::empty()
    };
    let color = CheckView {
        name: "color_metadata"@,
        status: if r.color.declared() {
            ValidationStatus::Passed
        } else {
            ValidationStatus::Warning
        },
        expected: Some("embedded_or_declared"@),
        actual: Some(
            if r.color.declared() {
                "declared"@
            } else {
                "missing"@
            },
        ),
    };
    base + timing + seq![color]
}

/// Failed if any check failed, else Warning if any warned, else Passed.
pub open spec fn overall_status(checks: Seq<CheckView>) -> ValidationStatus {
    if exists|i: int| 0 <= i < checks.len() && #[trigger] checks[i].status == ValidationStatus::Failed {
        ValidationStatus::Failed
    } else if exists|i: int| 0 <= i < checks.len() && #[trigger] checks[i].status
        == ValidationStatus::Warning {
        ValidationStatus::Warning
    } else {
        ValidationStatus::Passed
    }
}

pub open spec fn checks_view(checks: Seq<ValidationCheck>) -> Seq<CheckView> {
    checks.map_values(|c: ValidationCheck| c@)
}

fn status_of(checks: &Vec<ValidationCheck>) -> (s: ValidationStatus)
    ensures
        s == overall_status(checks_view(checks@)),
{
    let ghost v = checks_view(checks@);
    let mut failed = false;
    let mut warned = false;
    let ghost mut wf: int = 0;
    let ghost mut ww: int = 0;
    let mut i: usize = 0;
    while i < checks.len()
        invariant
            i <= checks.len(),
            v == checks_view(checks@),
            v.len() == checks@.len(),
            failed ==> 0 <= wf < i && v[wf].status == ValidationStatus::Failed,
            !failed ==> forall|j: int| 0 <= j < i ==> #[trigger] v[j].status != ValidationStatus::Failed,
            warned ==> 0 <= ww < i && v[ww].status == ValidationStatus::Warning,
            !warned ==> forall|j: int| 0 <= j < i ==> #[trigger] v[j].status != ValidationStatus::Warning,
        decreases checks.len() - i,
    {
        assert(v[i as int] == checks@[i as int]@);
        match checks[i].status {
            ValidationStatus::Failed => {
                failed = true;
                proof {
                    wf = i as int;
                }
            },
            ValidationStatus::Warning => {
                warned = true;
                proof {
                    ww = i as int;
                }
            },
            ValidationStatus::Passed => {},
        }
        i = i + 1;
    }
    if failed {
        ValidationStatus::Failed
    } else if warned {
        ValidationStatus::Warning
    } else {
        ValidationStatus::Passed
    }
}

fn text_or(o: &Option<String>, fallback: &str) -> (r: String)
    ensures
        r@ == (match *o {
            Some(c) => c@,
            None => fallback@,
        }),
{
    match o {
        Some(c) => c.clone(),
        None => owned(fallback),
    }
}

fn dims_string(w: u32, h: u32) -> (r: String)
    ensures
        r@ == dims_text(w as nat, h as nat),
{
    let mut t = String::new();
    push_decimal(&mut t, w as u64);
    push_char(&mut t, 'x');
    push_decimal(&mut t, h as u64);
    proof {
        reveal_strlit("x");
    }
    assert(t@ =~= dims_text(w as nat, h as nat));
    t
}

/// Checks a probed resource against what the user selected.
pub fn validate_resource(
    resource: &MediaResource,
    media_type: CapturedMediaType,
    selected: &SelectedCaptureFormat,
) -> (v: AssetValidation)
    ensures
        checks_view(v.checks@) == resource_checks(*resource, media_type, *selected),
        v.status == overall_status(resource_checks(*resource, media_type, *selected)),
{
    let video = media_type == CapturedMediaType::Video;
    let mut checks: Vec<ValidationCheck> = Vec::new();
    let dimensions_match = (resource.pixel_width == selected.width && resource.pixel_height
        == selected.height) || ((resource.rotation_degrees == 90 || resource.rotation_degrees == 270)
        && resource.pixel_width == selected.height && resource.pixel_height == selected.width);
    checks.push(
        check(
            "pixel_dimensions",
            dimensions_match,
            dims_string(selected.width, selected.height),
            dims_string(resource.pixel_width, resource.pixel_height),
        ),
    );
    let c = resource.container.as_str();
    let container_ok = if video {
        crate::text::str_eq(c, "quicktime") || crate::text::str_eq(c, "mp4")
    } else {
        crate::text::str_eq(c, "jpeg")
    };
    checks.push(
        check(
            "container",
            container_ok,
            owned(if video { "quicktime/mp4" } else { "jpeg" }),
            resource.container.clone(),
        ),
    );
    checks.push(
        check(
            "video_codec",
            !video || resource.video_codec.is_some(),
            owned(if video { "declared" } else { "not_applicable" }),
            text_or(&resource.video_codec, "not_applicable"),
        ),
    );
    if video {
        let close = match resource.frame_rate {
            Some(f) => rates_close(f, selected.fps),
            None => false,
        };
        let mut expected = String::new();
        push_rate(&mut expected, selected.fps);
        let mut actual = String::new();
        match resource.frame_rate {
            Some(f) => push_rate(&mut actual, f),
            None => push_str(&mut actual, "missing"),
        }
        checks.push(check("frame_rate", close, expected, actual));
        let positive = match resource.duration_ms {
            Some(v) => v > 0,
            None => false,
        };
        let mut duration = String::new();
        match resource.duration_ms {
            Some(v) => {
                push_decimal(&mut duration, v);
                push_str(&mut duration, "ms");
            },
            None => push_str(&mut duration, "missing"),
        }
        checks.push(check("positive_duration", positive, owned(">0ms"), duration));
        checks.push(
            check(
                "audio_track",
                resource.audio_codec.is_some(),
                owned("declared"),
                text_or(&resource.audio_codec, "missing"),
            ),
        );
    }
    let declared = resource.color.is_declared();
    checks.push(
        ValidationCheck {
            name: owned("color_metadata"),
            status: if declared {
                ValidationStatus::Passed
            } else {
                ValidationStatus::Warning
            },
            expected: Some(owned("embedded_or_declared")),
            actual: Some(owned(if declared { "declared" } else { "missing" })),
        },
    );
    proof {
        reveal_strlit("missing");
        reveal_strlit("ms");
        assert(checks_view(checks@) =~= resource_checks(*resource, media_type, *selected));
    }
    let status = status_of(&checks);
    AssetValidation { status, checks }
}

/// `items` joined with `sep` between consecutive items.
pub open spec fn join(items: Seq<Seq<char>>, sep: Seq<char>) -> Seq<char>
    decreases items.len(),
{
    if items.len() == 0 {
        Seq::empty()
    } else if items.len() == 1 {
        items[0]
    } else {
        join(items.drop_last(), sep) + sep + items.last()
    }
}

/// Names of the failed checks, in order.
pub open spec fn failed_names(checks: Seq<CheckView>) -> Seq<Seq<char>>
    decreases checks.len(),
{
    if checks.len() == 0 {
        Seq::empty()
    } else if checks.last().status == ValidationStatus::Failed {
        failed_names(checks.drop_last()).push(checks.last().name)
    } else {
        failed_names(checks.drop_last())
    }
}

fn failure_list(checks: &Vec<ValidationCheck>) -> (r: String)
    ensures
        r@ == join(failed_names(checks_view(checks@)), ", "@),
{
    let ghost v = checks_view(checks@);
    let mut out = String::new();
    let mut any = false;
    let mut i: usize = 0;
    proof {
        assert(v.subrange(0, 0) =~= Seq::<CheckView>::empty());
    }
    while i < checks.len()
        invariant
            i <= checks.len(),
            v == checks_view(checks@),
            v.len() == checks@.len(),
            out@ == join(failed_names(v.subrange(0, i as int)), ", "@),
            any == (failed_names(v.subrange(0, i as int)).len() > 0),
        decreases checks.len() - i,
    {
        let ghost prefix = v.subrange(0, i as int);
        let ghost np = v.subrange(0, i + 1);
        assert(np.drop_last() =~= prefix);
        assert(np.last() == checks@[i as int]@);
        if checks[i].status == ValidationStatus::Failed {
            if any {
                push_str(&mut out, ", ");
            }
            push_str(&mut out, checks[i].name.as_str());
            any = true;
            proof {
                let names = failed_names(np);
                assert(names == failed_names(prefix).push(checks@[i as int].name@));
                assert(names.drop_last() =~= failed_names(prefix));
                if failed_names(prefix).len() == 0 {
                    assert(out@ =~= join(names, ", "@));
                } else {
                    assert(out@ =~= join(names, ", "@));
                }
            }
        }
        i = i + 1;
    }
    assert(v.subrange(0, checks.len() as int) =~= v);
    out
}

/// Why an asset fails validation, when it does.
pub open spec fn validation_failure_message(checks: Seq<CheckView>) -> Seq<char> {
    "captured asset failed validation: "@ + join(failed_names(checks), ", "@)
}

impl CapturedAsset {
    /// Builds the finalized asset for a probed resource, unless the resource
    /// fails validation against the selected format. `created_at_utc` is the
    /// creation timestamp (see `rfc3339_from_unix`).
    pub fn from_probed_resource(
        id: String,
        media_type: CapturedMediaType,
        original: MediaResource,
        finalized_path: String,
        capture: CaptureMetadata,
        created_at_utc: String,
    ) -> (r: Result<Self, CameraError>)
        ensures
            r is Ok <==> overall_status(resource_checks(original, media_type, capture.selected_format))
                != ValidationStatus::Failed,
            r matches Err(e) ==> e.0@ == validation_failure_message(
                resource_checks(original, media_type, capture.selected_format),
            ),
            r matches Ok(a) ==> {
                &&& a.schema_version == CAPTURED_ASSET_SCHEMA_VERSION
                &&& a.id == id
                &&& a.media_type == media_type
                &&& a.state == AssetState::Finalized
                &&& a.original_resource_id@ == id@ + ":original"@
                &&& a.original == (MediaResource { path: finalized_path, ..original })
                &&& a.derivatives@.len() == 0
                &&& a.capture == capture
                &&& checks_view(a.validation.checks@) == resource_checks(
                    original,
                    media_type,
                    capture.selected_format,
                )
                &&& a.validation.status == overall_status(
                    resource_checks(original, media_type, capture.selected_format),
                )
                &&& a.created_at_utc == created_at_utc
            },
    {
        let validation = validate_resource(&original, media_type, &capture.selected_format);
        if validation.status == ValidationStatus::Failed {
            let mut m = owned("captured asset failed validation: ");
            let list = failure_list(&validation.checks);
            push_str(&mut m, list.as_str());
            return Err(CameraError(m));
        }
        let mut original = original;
        original.path = finalized_path;
        let mut original_resource_id = id.clone();
        push_str(&mut original_resource_id, ":original");
        Ok(CapturedAsset {
            schema_version: CAPTURED_ASSET_SCHEMA_VERSION,
            id,
            media_type,
            state: AssetState::Finalized,
            original_resource_id,
            original,
            derivatives: Vec::new(),
            capture,
            validation,
            created_at_utc,
        })
    }

    /// A resource ID of this asset: its original or one of its derivatives.
    pub open spec fn has_resource(&self, resource_id: Seq<char>) -> bool {
        resource_id == self.original_resource_id@ || exists|i: int|
            0 <= i < self.derivatives@.len() && #[trigger] self.derivatives@[i].resource_id@
                == resource_id
    }

    pub fn contains_resource(&self, resource_id: &str) -> (b: bool)
        ensures
            b == self.has_resource(resource_id@),
    {
        if crate::text::str_eq(self.original_resource_id.as_str(), resource_id) {
            return true;
        }
        let mut i: usize = 0;
        while i < self.derivatives.len()
            invariant
                i <= self.derivatives@.len(),
                resource_id@ != self.original_resource_id@,
                forall|j: int| 0 <= j < i ==> #[trigger] self.derivatives@[j].resource_id@ != resource_id@,
            decreases self.derivatives.len() - i,
        {
            if crate::text::str_eq(self.derivatives[i].resource_id.as_str(), resource_id) {
                return true;
            }
            i = i + 1;
        }
        false
    }

    /// Attaches a derived resource. Its ID must be new to the asset and its
    /// provenance must name a resource the asset already holds.
    pub fn add_derivative(
        &mut self,
        resource_id: String,
        purpose: DerivativePurpose,
        resource: MediaResource,
        provenance: DerivativeProvenance,
    ) -> (r: Result<(), CameraError>)
        ensures
            r is Ok <==> (!old(self).has_resource(resource_id@) && old(self).has_resource(
                provenance.parent_resource_id@,
            )),
            r is Ok ==> final(self).derivatives@ == old(self).derivatives@.push(
                CapturedDerivative { resource_id, purpose, resource, provenance },
            ),
            r is Err ==> *final(self) == *old(self),
            final(self).id == old(self).id,
            final(self).original_resource_id == old(self).original_resource_id,
            final(self).original == old(self).original,
            final(self).state == old(self).state,
            final(self).media_type == old(self).media_type,
    {
        if self.contains_resource(resource_id.as_str()) {
            return Err(camera_error("derivative resource ID already exists"));
        }
        if !self.contains_resource(provenance.parent_resource_id.as_str()) {
            return Err(camera_error("derivative parent resource does not exist"));
        }
        self.derivatives.push(CapturedDerivative { resource_id, purpose, resource, provenance });
        Ok(())
    }
}

} // verus!
