//! Structural probing of captured JPEG stills and ISO-BMFF (QuickTime/MP4) movies.
use vstd::prelude::*;
use vstd::string::*;
use crate::asset::{
    CapturedColorMetadata, ColorView, MediaResource, RationalRate, ResourceView, codec_label,
    codec_name, color_primaries, color_primaries_label, exif_transform, exif_transform_spec,
    ImageEdge, SelectedCaptureFormat, ValidationStatus, exif_first_row_and_column, resource_checks,
    shown_edge,
    matrix_coefficients, matrix_label, matrix_transform, matrix_transform_spec, no_color,
    reduce_rate, reduce_rate_spec, transfer_characteristic, transfer_label,
};
use crate::bytes::{
    be16, be32, fits, has_prefix_at, read_be_i32, read_be_u16, read_be_u32, read_be_u64,
    read_u16, read_u32, spec_read_be_i32, spec_read_be_u16, spec_read_be_u32, spec_read_be_u64,
    spec_read_u16, spec_read_u32,
};
use crate::asset::copy_opt_string;
use crate::camera::{CameraError, CapturedMediaType, camera_error};
use crate::text::owned;

verus! {

// ---------------------------------------------------------------------------
// TIFF (EXIF) directories.

/// The first entry of an IFD, at or after `index`, whose tag matches and
/// which holds one SHORT; its value.
pub open spec fn tiff_short_from(b: Seq<u8>, ifd: int, tag: u16, little: bool, index: int, count: int) -> Option<u16>
    decreases count - index,
{
    if index >= count {
        None
    } else {
        let e = ifd + 2 + index * 12;
        if spec_read_u16(b, e, little) == Some(tag) && spec_read_u16(b, e + 2, little) == Some(3u16)
            && spec_read_u32(b, e + 4, little) == Some(1u32) && spec_read_u16(b, e + 8, little) is Some {
            spec_read_u16(b, e + 8, little)
        } else {
            tiff_short_from(b, ifd, tag, little, index + 1, count)
        }
    }
}

/// The first entry of an IFD, at or after `index`, whose tag matches and
/// whose value field can be read as a LONG; its value.
pub open spec fn tiff_long_from(b: Seq<u8>, ifd: int, tag: u16, little: bool, index: int, count: int) -> Option<u32>
    decreases count - index,
{
    if index >= count {
        None
    } else {
        let e = ifd + 2 + index * 12;
        if spec_read_u16(b, e, little) == Some(tag) && spec_read_u32(b, e + 8, little) is Some {
            spec_read_u32(b, e + 8, little)
        } else {
            tiff_long_from(b, ifd, tag, little, index + 1, count)
        }
    }
}

pub open spec fn tiff_short(b: Seq<u8>, ifd: int, tag: u16, little: bool) -> Option<u16> {
    match spec_read_u16(b, ifd, little) {
        None => None,
        Some(count) => tiff_short_from(b, ifd, tag, little, 0, count as int),
    }
}

pub open spec fn tiff_long(b: Seq<u8>, ifd: int, tag: u16, little: bool) -> Option<u32> {
    match spec_read_u16(b, ifd, little) {
        None => None,
        Some(count) => tiff_long_from(b, ifd, tag, little, 0, count as int),
    }
}

fn entry_offset(ifd: usize, index: usize) -> (r: usize)
    ensures
        r as int == if ifd + 2 + index * 12 <= usize::MAX { ifd + 2 + index * 12 } else { usize::MAX as int },
{
    if index > (usize::MAX - 2) / 12 || ifd > usize::MAX - 2 - index * 12 {
        usize::MAX
    } else {
        ifd + 2 + index * 12
    }
}

fn offset_plus(a: usize, k: usize) -> (r: usize)
    ensures
        r as int == if a + k <= usize::MAX { a + k } else { usize::MAX as int },
{
    if a > usize::MAX - k {
        usize::MAX
    } else {
        a + k
    }
}

pub fn find_tiff_short(bytes: &[u8], ifd: usize, tag: u16, little: bool) -> (r: Option<u16>)
    ensures
        r == tiff_short(bytes@, ifd as int, tag, little),
{
    let count = match read_u16(bytes, ifd, little) {
        None => return None,
        Some(c) => c as usize,
    };
    let ghost b = bytes@;
    let _len: usize = bytes.len();
    let mut index: usize = 0;
    while index < count
        invariant
            b == bytes@,
            b.len() <= usize::MAX,
            index <= count,
            tiff_short(b, ifd as int, tag, little) == tiff_short_from(b, ifd as int, tag, little, index as int, count as int),
        decreases count - index,
    {
        let entry = entry_offset(ifd, index);
        let o2 = offset_plus(entry, 2);
        let o4 = offset_plus(entry, 4);
        let o8 = offset_plus(entry, 8);
        let ghost e = ifd + 2 + index * 12;
        assert(spec_read_u16(b, entry as int, little) == spec_read_u16(b, e, little));
        assert(spec_read_u16(b, o2 as int, little) == spec_read_u16(b, e + 2, little));
        assert(spec_read_u32(b, o4 as int, little) == spec_read_u32(b, e + 4, little));
        assert(spec_read_u16(b, o8 as int, little) == spec_read_u16(b, e + 8, little));
        let t = read_u16(bytes, entry, little);
        let k = read_u16(bytes, o2, little);
        let n = read_u32(bytes, o4, little);
        let v = read_u16(bytes, o8, little);
        if t == Some(tag) && k == Some(3u16) && n == Some(1u32) && v.is_some() {
            return v;
        }
        index = index + 1;
    }
    None
}

pub fn find_tiff_long(bytes: &[u8], ifd: usize, tag: u16, little: bool) -> (r: Option<u32>)
    ensures
        r == tiff_long(bytes@, ifd as int, tag, little),
{
    let count = match read_u16(bytes, ifd, little) {
        None => return None,
        Some(c) => c as usize,
    };
    let ghost b = bytes@;
    let _len: usize = bytes.len();
    let mut index: usize = 0;
    while index < count
        invariant
            b == bytes@,
            b.len() <= usize::MAX,
            index <= count,
            tiff_long(b, ifd as int, tag, little) == tiff_long_from(b, ifd as int, tag, little, index as int, count as int),
        decreases count - index,
    {
        let entry = entry_offset(ifd, index);
        let o8 = offset_plus(entry, 8);
        let ghost e = ifd + 2 + index * 12;
        assert(spec_read_u16(b, entry as int, little) == spec_read_u16(b, e, little));
        assert(spec_read_u32(b, o8 as int, little) == spec_read_u32(b, e + 8, little));
        let t = read_u16(bytes, entry, little);
        let v = read_u32(bytes, o8, little);
        if t == Some(tag) && v.is_some() {
            return v;
        }
        index = index + 1;
    }
    None
}

/// EXIF orientation (when in 1..=8) and EXIF colour space of a TIFF block.
pub open spec fn parse_tiff_spec(b: Seq<u8>) -> (Option<u16>, Option<u16>) {
    if b.len() < 2 {
        (None, None)
    } else {
        let little = b[0] == 0x49 && b[1] == 0x49;
        let big = b[0] == 0x4d && b[1] == 0x4d;
        if !little && !big {
            (None, None)
        } else if spec_read_u16(b, 2, little) != Some(42u16) {
            (None, None)
        } else {
            match spec_read_u32(b, 4, little) {
                None => (None, None),
                Some(ifd0) => {
                    let orientation = tiff_short(b, ifd0 as int, 0x0112, little);
                    let color = match tiff_long(b, ifd0 as int, 0x8769, little) {
                        Some(offset) => tiff_short(b, offset as int, 0xa001, little),
                        None => None,
                    };
                    (
                        if orientation matches Some(v) && 1 <= v <= 8 {
                            orientation
                        } else {
                            None
                        },
                        color,
                    )
                },
            }
        }
    }
}

pub fn parse_tiff(bytes: &[u8]) -> (r: (Option<u16>, Option<u16>))
    ensures
        r == parse_tiff_spec(bytes@),
{
    if bytes.len() < 2 {
        return (None, None);
    }
    let little = bytes[0] == 0x49 && bytes[1] == 0x49;
    let big = bytes[0] == 0x4d && bytes[1] == 0x4d;
    if !little && !big {
        return (None, None);
    }
    if read_u16(bytes, 2, little) != Some(42u16) {
        return (None, None);
    }
    let ifd0 = match read_u32(bytes, 4, little) {
        None => return (None, None),
        Some(v) => v,
    };
    if ifd0 as u64 > usize::MAX as u64 {
        assert(tiff_short(bytes@, ifd0 as int, 0x0112, little) is None);
        assert(tiff_long(bytes@, ifd0 as int, 0x8769, little) is None);
        return (None, None);
    }
    let orientation = find_tiff_short(bytes, ifd0 as usize, 0x0112, little);
    let color = match find_tiff_long(bytes, ifd0 as usize, 0x8769, little) {
        Some(offset) => {
            if offset as u64 > usize::MAX as u64 {
                assert(tiff_short(bytes@, offset as int, 0xa001, little) is None);
                None
            } else {
                find_tiff_short(bytes, offset as usize, 0xa001, little)
            }
        },
        None => None,
    };
    let orientation = match orientation {
        Some(v) => if 1 <= v && v <= 8 { Some(v) } else { None },
        None => None,
    };
    (orientation, color)
}

// ---------------------------------------------------------------------------
// JPEG.

/// What a JPEG marker walk collects.
#[derive(Clone, Copy)]
pub struct JpegFields {
    pub width: Option<u32>,
    pub height: Option<u32>,
    pub bit_depth: Option<u16>,
    pub orientation: Option<u16>,
    pub exif_color_space: Option<u16>,
    pub has_icc: bool,
}

pub open spec fn jpeg_fields_start() -> JpegFields {
    JpegFields {
        width: None,
        height: None,
        bit_depth: None,
        orientation: None,
        exif_color_space: None,
        has_icc: false,
    }
}

/// Start-of-frame markers that carry the frame dimensions.
pub open spec fn is_sof(m: u8) -> bool {
    (0xc0 <= m <= 0xc3) || (0xc5 <= m <= 0xc7) || (0xc9 <= m <= 0xcb) || (0xcd <= m <= 0xcf)
}

pub open spec fn exif_magic() -> Seq<u8> {
    seq![0x45u8, 0x78, 0x69, 0x66, 0, 0]
}

pub open spec fn icc_magic() -> Seq<u8> {
    seq![0x49u8, 0x43, 0x43, 0x5f, 0x50, 0x52, 0x4f, 0x46, 0x49, 0x4c, 0x45, 0]
}

pub open spec fn starts_with(s: Seq<u8>, prefix: Seq<u8>) -> bool {
    prefix.len() <= s.len() && s.subrange(0, prefix.len() as int) == prefix
}

/// The effect of one marker segment's payload on the collected fields.
pub open spec fn apply_segment(st: JpegFields, marker: u8, p: Seq<u8>) -> JpegFields {
    if is_sof(marker) && p.len() >= 5 {
        JpegFields {
            bit_depth: Some(p[0] as u16),
            height: Some(be16(p, 1) as u32),
            width: Some(be16(p, 3) as u32),
            ..st
        }
    } else if marker == 0xe1 && starts_with(p, exif_magic()) {
        let (o, cs) = parse_tiff_spec(p.subrange(6, p.len() as int));
        JpegFields {
            orientation: if o is Some { o } else { st.orientation },
            exif_color_space: if cs is Some { cs } else { st.exif_color_space },
            ..st
        }
    } else if marker == 0xe2 && starts_with(p, icc_magic()) {
        JpegFields { has_icc: true, ..st }
    } else {
        st
    }
}

/// First position at or after `c` that does not hold a 0xff fill byte.
pub open spec fn skip_fill(b: Seq<u8>, c: int) -> int
    decreases b.len() - c,
{
    if 0 <= c < b.len() && b[c] == 0xff {
        skip_fill(b, c + 1)
    } else {
        c
    }
}

pub proof fn lemma_skip_fill(b: Seq<u8>, c: int)
    requires
        0 <= c <= b.len(),
    ensures
        c <= skip_fill(b, c) <= b.len(),
    decreases b.len() - c,
{
    if c < b.len() && b[c] == 0xff {
        lemma_skip_fill(b, c + 1);
    }
}

/// The marker walk from `cursor` on: the fields collected when it stops, or
/// the message of the error that stops it.
pub open spec fn jpeg_scan(b: Seq<u8>, cursor: int, st: JpegFields) -> Result<JpegFields, Seq<char>>
    decreases b.len() - cursor,
{
    if cursor < 0 || cursor + 4 > b.len() {
        Ok(st)
    } else if b[cursor] != 0xff {
        jpeg_scan(b, cursor + 1, st)
    } else {
        let c = skip_fill(b, cursor);
        if c < cursor || c >= b.len() {
            Ok(st)
        } else {
            let marker = b[c];
            let c1 = c + 1;
            if marker == 0xd9 || marker == 0xda {
                Ok(st)
            } else if marker == 0x01 || (0xd0 <= marker <= 0xd8) {
                jpeg_scan(b, c1, st)
            } else if c1 + 2 > b.len() {
                Err("truncated JPEG marker"@)
            } else {
                let length = be16(b, c1);
                if length < 2 || c1 + length > b.len() {
                    Err("invalid JPEG marker length"@)
                } else {
                    jpeg_scan(b, c1 + length, apply_segment(st, marker, b.subrange(c1 + 2, c1 + length)))
                }
            }
        }
    }
}

fn apply_segment_exec(bytes: &[u8], start: usize, end: usize, marker: u8, st: JpegFields) -> (r: JpegFields)
    requires
        start <= end <= bytes@.len(),
    ensures
        r == apply_segment(st, marker, bytes@.subrange(start as int, end as int)),
{
    let ghost p = bytes@.subrange(start as int, end as int);
    let sof = (0xc0 <= marker && marker <= 0xc3) || (0xc5 <= marker && marker <= 0xc7) || (0xc9
        <= marker && marker <= 0xcb) || (0xcd <= marker && marker <= 0xcf);
    if sof && end - start >= 5 {
        let payload = &bytes[start..end];
        let h = read_be_u16(payload, 1).unwrap();
        let w = read_be_u16(payload, 3).unwrap();
        return JpegFields {
            bit_depth: Some(payload[0] as u16),
            height: Some(h as u32),
            width: Some(w as u32),
            ..st
        };
    }
    let exif: [u8; 6] = [0x45, 0x78, 0x69, 0x66, 0, 0];
    assert(exif@ == exif_magic());
    proof {
        if 6 <= p.len() {
            assert(p.subrange(0, 6) =~= bytes@.subrange(start as int, start + 6));
        }
        if 12 <= p.len() {
            assert(p.subrange(0, 12) =~= bytes@.subrange(start as int, start + 12));
        }
    }
    if marker == 0xe1 && has_prefix_at(bytes, start, end, &exif) {
        let tiff = &bytes[start + 6..end];
        assert(tiff@ == p.subrange(6, p.len() as int));
        let (o, cs) = parse_tiff(tiff);
        return JpegFields {
            orientation: if o.is_some() { o } else { st.orientation },
            exif_color_space: if cs.is_some() { cs } else { st.exif_color_space },
            ..st
        };
    }
    let icc: [u8; 12] = [0x49, 0x43, 0x43, 0x5f, 0x50, 0x52, 0x4f, 0x46, 0x49, 0x4c, 0x45, 0];
    assert(icc@ == icc_magic());
    if marker == 0xe2 && has_prefix_at(bytes, start, end, &icc) {
        return JpegFields { has_icc: true, ..st };
    }
    st
}

/// Walks the JPEG marker segments after the SOI marker.
pub fn scan_jpeg(bytes: &[u8]) -> (r: Result<JpegFields, CameraError>)
    ensures
        r matches Ok(f) ==> jpeg_scan(bytes@, 2, jpeg_fields_start()) == Ok::<JpegFields, Seq<char>>(f),
        r matches Err(e) ==> jpeg_scan(bytes@, 2, jpeg_fields_start()) == Err::<JpegFields, Seq<char>>(e.0@),
{
    let ghost b = bytes@;
    let len: usize = bytes.len();
    let mut st = JpegFields {
        width: None,
        height: None,
        bit_depth: None,
        orientation: None,
        exif_color_space: None,
        has_icc: false,
    };
    let mut cursor: usize = 2;
    if len < 2 {
        return Ok(st);
    }
    while cursor <= len && len - cursor >= 4
        invariant
            b == bytes@,
            len == b.len(),
            2 <= cursor <= len,
            jpeg_scan(b, 2, jpeg_fields_start()) == jpeg_scan(b, cursor as int, st),
        decreases len - cursor,
    {
        if bytes[cursor] != 0xff {
            cursor = cursor + 1;
        } else {
            let c0 = cursor;
            proof {
                lemma_skip_fill(b, c0 as int);
            }
            while cursor < len && bytes[cursor] == 0xff
                invariant
                    b == bytes@,
                    len == b.len(),
                    c0 <= cursor <= len,
                    skip_fill(b, c0 as int) == skip_fill(b, cursor as int),
                decreases len - cursor,
            {
                cursor = cursor + 1;
            }
            if cursor >= len {
                return Ok(st);
            }
            let marker = bytes[cursor];
            cursor = cursor + 1;
            if marker == 0xd9 || marker == 0xda {
                return Ok(st);
            }
            if !(marker == 0x01 || (0xd0 <= marker && marker <= 0xd8)) {
                let length: usize = match read_be_u16(bytes, cursor) {
                    None => {
                        proof {
                            reveal_strlit("truncated JPEG marker");
                        }
                        return Err(camera_error("truncated JPEG marker"));
                    },
                    Some(l) => l as usize,
                };
                if length < 2 || length > len - cursor {
                    proof {
                        reveal_strlit("invalid JPEG marker length");
                    }
                    return Err(camera_error("invalid JPEG marker length"));
                }
                st = apply_segment_exec(bytes, cursor + 2, cursor + length, marker, st);
                cursor = cursor + length;
            }
        }
    }
    Ok(st)
}

/// The resource a JPEG with the given collected fields describes.
pub open spec fn jpeg_resource(path: Seq<char>, len: nat, f: JpegFields) -> ResourceView {
    let orientation: u16 = match f.orientation {
        Some(o) => o,
        None => 1,
    };
    let t = exif_transform_spec(orientation);
    ResourceView {
        path,
        byte_length: len as u64,
        container: "jpeg"@,
        video_codec: Some("jpeg"@),
        audio_codec: None,
        pixel_width: f.width->0,
        pixel_height: f.height->0,
        bit_depth: f.bit_depth,
        orientation,
        orientation_explicit: f.orientation is Some,
        rotation_degrees: t.0,
        mirrored: t.1,
        frame_rate: None,
        duration_ms: None,
        audio_channels: None,
        audio_sample_rate_hz: None,
        color: ColorView {
            embedded_profile: if f.has_icc {
                Some("icc"@)
            } else if f.exif_color_space == Some(1u16) {
                Some("srgb_exif"@)
            } else {
                None
            },
            ..no_color()
        },
    }
}

/// What probing a JPEG stream yields: its resource, or why it is refused.
pub open spec fn jpeg_probe(path: Seq<char>, b: Seq<u8>) -> Result<ResourceView, Seq<char>> {
    if b.len() < 2 || b[0] != 0xff || b[1] != 0xd8 {
        Err("photo output is not a JPEG stream"@)
    } else {
        match jpeg_scan(b, 2, jpeg_fields_start()) {
            Err(m) => Err(m),
            Ok(f) => if f.width is Some && f.height is Some {
                Ok(jpeg_resource(path, b.len(), f))
            } else {
                Err("JPEG dimensions are missing"@)
            },
        }
    }
}

pub fn probe_jpeg(path: &str, bytes: &[u8]) -> (r: Result<MediaResource, CameraError>)
    ensures
        r matches Ok(m) ==> jpeg_probe(path@, bytes@) == Ok::<ResourceView, Seq<char>>(m@),
        r matches Err(e) ==> jpeg_probe(path@, bytes@) == Err::<ResourceView, Seq<char>>(e.0@),
{
    proof {
        reveal_strlit("photo output is not a JPEG stream");
        reveal_strlit("JPEG dimensions are missing");
    }
    if bytes.len() < 2 || bytes[0] != 0xff || bytes[1] != 0xd8 {
        return Err(camera_error("photo output is not a JPEG stream"));
    }
    let f = scan_jpeg(bytes)?;
    let (width, height) = match (f.width, f.height) {
        (Some(w), Some(h)) => (w, h),
        _ => return Err(camera_error("JPEG dimensions are missing")),
    };
    let explicit = f.orientation.is_some();
    let orientation: u16 = match f.orientation {
        Some(o) => o,
        None => 1,
    };
    let (rotation_degrees, mirrored) = exif_transform(orientation);
    let embedded_profile = if f.has_icc {
        Some(owned("icc"))
    } else if f.exif_color_space == Some(1u16) {
        Some(owned("srgb_exif"))
    } else {
        None
    };
    let r = MediaResource {
        path: owned(path),
        byte_length: bytes.len() as u64,
        container: owned("jpeg"),
        video_codec: Some(owned("jpeg")),
        audio_codec: None,
        pixel_width: width,
        pixel_height: height,
        bit_depth: f.bit_depth,
        orientation,
        orientation_explicit: explicit,
        rotation_degrees,
        mirrored,
        frame_rate: None,
        duration_ms: None,
        audio_channels: None,
        audio_sample_rate_hz: None,
        color: CapturedColorMetadata {
            embedded_profile,
            color_primaries: None,
            transfer_characteristic: None,
            matrix_coefficients: None,
            full_range: None,
        },
    };
    assert(r@ == jpeg_resource(path@, bytes@.len(), f));
    Ok(r)
}

// ---------------------------------------------------------------------------
// ISO base media file format boxes.

#[derive(Clone, Copy)]
pub struct IsoBox {
    pub kind: [u8; 4],
    pub content: usize,
    pub end: usize,
}

pub struct BoxView {
    pub kind: Seq<u8>,
    pub content: int,
    pub end: int,
}

impl View for IsoBox {
    type V = BoxView;

    open spec fn view(&self) -> BoxView {
        BoxView { kind: self.kind@, content: self.content as int, end: self.end as int }
    }
}

pub open spec fn boxes_view(v: Seq<IsoBox>) -> Seq<BoxView> {
    v.map_values(|x: IsoBox| x@)
}

/// The sequence of boxes laid end to end in `[cursor, end)`, or why it is malformed.
#[verifier::opaque]
pub open spec fn box_list(b: Seq<u8>, cursor: int, end: int) -> Result<Seq<BoxView>, Seq<char>>
    decreases end - cursor,
{
    if cursor < 0 || cursor + 8 > end {
        Ok(Seq::empty())
    } else if cursor + 4 > b.len() {
        Err("truncated movie box"@)
    } else {
        let size32 = be32(b, cursor);
        if size32 == 1 && !fits(b.len() as int, cursor + 8, 8) {
            Err("truncated extended movie box"@)
        } else {
            let size: int = if size32 == 1 {
                crate::bytes::be64(b, cursor + 8)
            } else if size32 == 0 {
                end - cursor
            } else {
                size32
            };
            let header: int = if size32 == 1 { 16 } else { 8 };
            let box_end = cursor + size;
            if box_end > end {
                Err("invalid movie box length"@)
            } else if size < header {
                Err("invalid movie box header"@)
            } else {
                match box_list(b, box_end, end) {
                    Err(m) => Err(m),
                    Ok(rest) => Ok(
                        seq![BoxView { kind: b.subrange(cursor + 4, cursor + 8), content: cursor + header, end: box_end }]
                            + rest,
                    ),
                }
            }
        }
    }
}

pub proof fn lemma_box_list_bounds(b: Seq<u8>, cursor: int, end: int)
    requires
        0 <= cursor,
        end <= b.len(),
    ensures
        box_list(b, cursor, end) matches Ok(v) ==> forall|i: int| 0 <= i < v.len() ==> {
            &&& cursor <= #[trigger] v[i].content <= v[i].end <= end
            &&& v[i].kind.len() == 4
        },
    decreases end - cursor,
{
    reveal(box_list);
    if cursor + 8 <= end && cursor + 4 <= b.len() {
        let size32 = be32(b, cursor);
        let size: int = if size32 == 1 {
            crate::bytes::be64(b, cursor + 8)
        } else if size32 == 0 {
            end - cursor
        } else {
            size32
        };
        let header: int = if size32 == 1 { 16 } else { 8 };
        if size >= header && cursor + size <= end {
            lemma_box_list_bounds(b, cursor + size, end);
        }
    }
}

proof fn lemma_boxes_in_bounds(b: Seq<u8>, v: Seq<IsoBox>, cursor: int, end: int)
    requires
        0 <= cursor,
        end <= b.len(),
        box_list(b, cursor, end) == Ok::<Seq<BoxView>, Seq<char>>(boxes_view(v)),
    ensures
        forall|k: int| 0 <= k < v.len() ==> cursor <= #[trigger] v[k].content <= v[k].end <= end,
{
    lemma_box_list_bounds(b, cursor, end);
    let bv = boxes_view(v);
    let w = box_list(b, cursor, end)->Ok_0;
    assert(w == bv);
    assert forall|k: int| 0 <= k < v.len() implies cursor <= #[trigger] v[k].content <= v[k].end <= end by {
        assert(bv[k] == v[k]@);
        assert(cursor <= w[k].content <= w[k].end <= end);
    }
}

pub fn boxes(bytes: &[u8], cursor: usize, end: usize) -> (r: Result<Vec<IsoBox>, CameraError>)
    requires
        end <= bytes@.len(),
    ensures
        r matches Ok(v) ==> box_list(bytes@, cursor as int, end as int) == Ok::<Seq<BoxView>, Seq<char>>(boxes_view(v@)),
        r matches Err(e) ==> box_list(bytes@, cursor as int, end as int) == Err::<Seq<BoxView>, Seq<char>>(e.0@),
{
    proof {
        reveal(box_list);
    }
    let ghost b = bytes@;
    let mut result: Vec<IsoBox> = Vec::new();
    let mut pos = cursor;
    let ghost c0 = cursor as int;
    proof {
        reveal_strlit("truncated movie box");
        reveal_strlit("truncated extended movie box");
        reveal_strlit("invalid movie box length");
        reveal_strlit("invalid movie box header");
    }
    while pos <= end && end - pos >= 8
        invariant
            b == bytes@,
            end <= b.len(),
            c0 == cursor as int,
            box_list(b, c0, end as int) == (match box_list(b, pos as int, end as int) {
                Err(m) => Err(m),
                Ok(rest) => Ok::<Seq<BoxView>, Seq<char>>(boxes_view(result@) + rest),
            }),
        decreases end - pos,
    {
        proof {
            reveal(box_list);
        }
        let size32 = read_be_u32(bytes, pos).unwrap();
        let kind: [u8; 4] = [bytes[pos + 4], bytes[pos + 5], bytes[pos + 6], bytes[pos + 7]];
        assert(kind@ =~= b.subrange(pos + 4, pos + 8));
        let (size, header): (u64, usize) = if size32 == 1 {
            match read_be_u64(bytes, pos + 8) {
                None => {
                    assert(box_list(b, pos as int, end as int) == Err::<Seq<BoxView>, Seq<char>>(
                        "truncated extended movie box"@,
                    ));
            assert(box_list(b, c0, end as int) == Err::<Seq<BoxView>, Seq<char>>("truncated extended movie box"@));
                    return Err(camera_error("truncated extended movie box"));
                },
                Some(v) => (v, 16),
            }
        } else if size32 == 0 {
            ((end - pos) as u64, 8)
        } else {
            (size32 as u64, 8)
        };
        if size > (end - pos) as u64 {
            assert(box_list(b, pos as int, end as int) == Err::<Seq<BoxView>, Seq<char>>(
                "invalid movie box length"@,
            ));
            assert(box_list(b, c0, end as int) == Err::<Seq<BoxView>, Seq<char>>("invalid movie box length"@));
            let err = camera_error("invalid movie box length");
            assert(box_list(bytes@, c0, end as int) == Err::<Seq<BoxView>, Seq<char>>(err.0@));
            return Err(err);
        }
        let box_end = pos + size as usize;
        if size < header as u64 {
            let err = camera_error("invalid movie box header");
            assert(box_list(bytes@, c0, end as int) == Err::<Seq<BoxView>, Seq<char>>(err.0@));
            return Err(err);
        }
        let item = IsoBox { kind, content: pos + header, end: box_end };
        let ghost before = result@;
        result.push(item);
        assert(boxes_view(result@) =~= boxes_view(before).push(item@));
        proof {
            match box_list(b, box_end as int, end as int) {
                Err(m) => {},
                Ok(rest) => {
                    assert(boxes_view(before) + (seq![item@] + rest) =~= boxes_view(result@) + rest);
                },
            }
        }
        pos = box_end;
    }
    assert(boxes_view(result@) + Seq::<BoxView>::empty() =~= boxes_view(result@));
    Ok(result)
}

pub open spec fn kind_of(k: Seq<u8>, a: char, b: char, c: char, d: char) -> bool {
    k.len() == 4 && k[0] == a as u8 && k[1] == b as u8 && k[2] == c as u8 && k[3] == d as u8
}

/// Index of the first box of the given kind.
#[verifier::opaque]
pub open spec fn first_of(v: Seq<BoxView>, a: char, b: char, c: char, d: char) -> Option<int> {
    if exists|i: int| 0 <= i < v.len() && kind_of(#[trigger] v[i].kind, a, b, c, d) {
        Some(choose|i: int| 0 <= i < v.len() && kind_of(v[i].kind, a, b, c, d) && forall|j: int|
            0 <= j < i ==> !kind_of(#[trigger] v[j].kind, a, b, c, d))
    } else {
        None
    }
}

fn find_kind(v: &Vec<IsoBox>, a: u8, b: u8, c: u8, d: u8) -> (r: Option<usize>)
    ensures
        r matches Some(i) ==> i < v@.len() && kind_of(v@[i as int]@.kind, a as char, b as char, c as char, d as char)
            && forall|j: int| 0 <= j < i ==> !kind_of(#[trigger] v@[j]@.kind, a as char, b as char, c as char, d as char),
        r is None ==> forall|j: int| 0 <= j < v@.len() ==> !kind_of(#[trigger] v@[j]@.kind, a as char, b as char, c as char, d as char),
{
    let mut i: usize = 0;
    while i < v.len()
        invariant
            i <= v@.len(),
            forall|j: int| 0 <= j < i ==> !kind_of(#[trigger] v@[j]@.kind, a as char, b as char, c as char, d as char),
        decreases v.len() - i,
    {
        let k = v[i].kind;
        if k[0] == a && k[1] == b && k[2] == c && k[3] == d {
            return Some(i);
        }
        i = i + 1;
    }
    None
}

/// Millisecond duration declared by a movie or media header box.
pub open spec fn header_duration_ms(b: Seq<u8>, h: BoxView) -> Option<u64> {
    if !(0 <= h.content < b.len()) {
        None
    } else {
        let version = b[h.content];
        let offset = h.content + if version == 1 { 20int } else { 12int };
        match spec_read_be_u32(b, offset) {
            None => None,
            Some(timescale) => if timescale == 0 {
                None
            } else {
                let duration: Option<u64> = if version == 1 {
                    spec_read_be_u64(b, offset + 4)
                } else {
                    match spec_read_be_u32(b, offset + 4) {
                        Some(v) => Some(v as u64),
                        None => None,
                    }
                };
                match duration {
                    None => None,
                    Some(d) => if d > 0 {
                        Some((sat_mul(d as int, 1000) / (timescale as int)) as u64)
                    } else {
                        None
                    },
                }
            },
        }
    }
}

/// Saturating multiplication within `u64`.
pub open spec fn sat_mul(a: int, b: int) -> int {
    if a * b > u64::MAX {
        u64::MAX as int
    } else {
        a * b
    }
}

/// Saturating addition within `u64`.
pub open spec fn sat_add(a: int, b: int) -> int {
    if a + b > u64::MAX {
        u64::MAX as int
    } else {
        a + b
    }
}

pub fn saturating_mul(a: u64, b: u64) -> (r: u64)
    ensures
        r as int == sat_mul(a as int, b as int),
{
    match a.checked_mul(b) {
        Some(v) => v,
        None => u64::MAX,
    }
}

pub fn saturating_add(a: u64, b: u64) -> (r: u64)
    ensures
        r as int == sat_add(a as int, b as int),
{
    match a.checked_add(b) {
        Some(v) => v,
        None => u64::MAX,
    }
}

pub fn media_header_duration_ms(bytes: &[u8], header: IsoBox) -> (r: Option<u64>)
    ensures
        r == header_duration_ms(bytes@, header@),
{
    if header.content >= bytes.len() {
        return None;
    }
    let version = bytes[header.content];
    let offset = offset_plus(header.content, if version == 1 { 20 } else { 12 });
    let _len: usize = bytes.len();
    let timescale = match read_be_u32(bytes, offset) {
        None => return None,
        Some(t) => t,
    };
    if timescale == 0 {
        return None;
    }
    let offset4 = offset_plus(offset, 4);
    let duration: u64 = if version == 1 {
        match read_be_u64(bytes, offset4) {
            None => return None,
            Some(d) => d,
        }
    } else {
        match read_be_u32(bytes, offset4) {
            None => return None,
            Some(d) => d as u64,
        }
    };
    if duration > 0 {
        let scaled = saturating_mul(duration, 1000);
        Some(scaled / timescale as u64)
    } else {
        None
    }
}

pub open spec fn colr_kind(b: Seq<u8>, c: int, last: char) -> bool {
    fits(b.len() as int, c, 4) && b[c] == 0x6e && b[c + 1] == 0x63 && b[c + 2] == 0x6c && b[c + 3] == last as u8
}

/// Colour description of an `nclc`/`nclx` colour box.
pub open spec fn colr_view(b: Seq<u8>, colr: BoxView) -> ColorView {
    let c = colr.content;
    let nclc = colr_kind(b, c, 'c');
    let nclx = colr_kind(b, c, 'x');
    if !nclc && !nclx {
        no_color()
    } else {
        ColorView {
            embedded_profile: None,
            color_primaries: match spec_read_be_u16(b, c + 4) {
                Some(v) => Some(color_primaries_label(v)),
                None => None,
            },
            transfer_characteristic: match spec_read_be_u16(b, c + 6) {
                Some(v) => Some(transfer_label(v)),
                None => None,
            },
            matrix_coefficients: match spec_read_be_u16(b, c + 8) {
                Some(v) => Some(matrix_label(v)),
                None => None,
            },
            full_range: if nclx {
                Some(0 <= c + 10 < b.len() && b[c + 10] >= 0x80)
            } else {
                None
            },
        }
    }
}

pub fn parse_colr(bytes: &[u8], colr: IsoBox) -> (r: CapturedColorMetadata)
    ensures
        r@ == colr_view(bytes@, colr@),
{
    let c = colr.content;
    let _len: usize = bytes.len();
    let has4 = c <= bytes.len() && bytes.len() - c >= 4;
    let nclc = has4 && bytes[c] == 0x6e && bytes[c + 1] == 0x63 && bytes[c + 2] == 0x6c && bytes[c + 3] == 0x63;
    let nclx = has4 && bytes[c] == 0x6e && bytes[c + 1] == 0x63 && bytes[c + 2] == 0x6c && bytes[c + 3] == 0x78;
    if !nclc && !nclx {
        return CapturedColorMetadata {
            embedded_profile: None,
            color_primaries: None,
            transfer_characteristic: None,
            matrix_coefficients: None,
            full_range: None,
        };
    }
    let primaries = match read_be_u16(bytes, offset_plus(c, 4)) {
        Some(v) => Some(color_primaries(v)),
        None => None,
    };
    let transfer = match read_be_u16(bytes, offset_plus(c, 6)) {
        Some(v) => Some(transfer_characteristic(v)),
        None => None,
    };
    let matrix = match read_be_u16(bytes, offset_plus(c, 8)) {
        Some(v) => Some(matrix_coefficients(v)),
        None => None,
    };
    let full_range = if nclx {
        let o = offset_plus(c, 10);
        Some(o < bytes.len() && bytes[o] >= 0x80)
    } else {
        None
    };
    CapturedColorMetadata {
        embedded_profile: None,
        color_primaries: primaries,
        transfer_characteristic: transfer,
        matrix_coefficients: matrix,
        full_range,
    }
}

// ---------------------------------------------------------------------------
// Movie tracks.

pub struct MovieTrack {
    pub handler: [u8; 4],
    pub codec: Option<String>,
    pub width: u32,
    pub height: u32,
    pub timescale: u32,
    pub duration: u64,
    pub sample_count: u64,
    pub sample_duration: u64,
    pub rotation_degrees: u16,
    pub mirrored: bool,
    pub audio_channels: Option<u16>,
    pub audio_sample_rate_hz: Option<u32>,
    pub color: CapturedColorMetadata,
}

pub struct TrackView {
    pub handler: Seq<u8>,
    pub codec: Option<Seq<char>>,
    pub width: u32,
    pub height: u32,
    pub timescale: u32,
    pub duration: u64,
    pub sample_count: u64,
    pub sample_duration: u64,
    pub rotation_degrees: u16,
    pub mirrored: bool,
    pub audio_channels: Option<u16>,
    pub audio_sample_rate_hz: Option<u32>,
    pub color: ColorView,
}

impl View for MovieTrack {
    type V = TrackView;

    open spec fn view(&self) -> TrackView {
        TrackView {
            handler: self.handler@,
            codec: crate::asset::opt_view(self.codec),
            width: self.width,
            height: self.height,
            timescale: self.timescale,
            duration: self.duration,
            sample_count: self.sample_count,
            sample_duration: self.sample_duration,
            rotation_degrees: self.rotation_degrees,
            mirrored: self.mirrored,
            audio_channels: self.audio_channels,
            audio_sample_rate_hz: self.audio_sample_rate_hz,
            color: self.color@,
        }
    }
}

pub open spec fn empty_track() -> TrackView {
    TrackView {
        handler: seq![0u8, 0, 0, 0],
        codec: None,
        width: 0,
        height: 0,
        timescale: 0,
        duration: 0,
        sample_count: 0,
        sample_duration: 0,
        rotation_degrees: 0,
        mirrored: false,
        audio_channels: None,
        audio_sample_rate_hz: None,
        color: no_color(),
    }
}

pub open spec fn or_zero32(o: Option<u32>) -> u32 {
    match o {
        Some(v) => v,
        None => 0,
    }
}

pub open spec fn or_zero64(o: Option<u64>) -> u64 {
    match o {
        Some(v) => v,
        None => 0,
    }
}

/// Sample counting of a time-to-sample box, from entry `index` on.
pub open spec fn stts_fold(b: Seq<u8>, content: int, index: int, count: int, sc: int, sd: int) -> (int, int)
    decreases count - index,
{
    if index >= count {
        (sc, sd)
    } else {
        let o = content + 8 + index * 8;
        let samples = or_zero32(spec_read_be_u32(b, o)) as int;
        let delta = or_zero32(spec_read_be_u32(b, o + 4)) as int;
        stts_fold(b, content, index + 1, count, sat_add(sc, samples), sat_add(sd, sat_mul(samples, delta)))
    }
}

pub open spec fn stts_apply(b: Seq<u8>, stts: BoxView, t: TrackView) -> TrackView {
    let count = or_zero32(spec_read_be_u32(b, stts.content + 4));
    let r = stts_fold(b, stts.content, 0, count as int, t.sample_count as int, t.sample_duration as int);
    TrackView { sample_count: r.0 as u64, sample_duration: r.1 as u64, ..t }
}

pub proof fn lemma_stts_bounds(b: Seq<u8>, content: int, index: int, count: int, sc: int, sd: int)
    requires
        0 <= sc <= u64::MAX,
        0 <= sd <= u64::MAX,
    ensures
        0 <= stts_fold(b, content, index, count, sc, sd).0 <= u64::MAX,
        0 <= stts_fold(b, content, index, count, sc, sd).1 <= u64::MAX,
    decreases count - index,
{
    if index < count {
        let o = content + 8 + index * 8;
        let samples = or_zero32(spec_read_be_u32(b, o)) as int;
        let delta = or_zero32(spec_read_be_u32(b, o + 4)) as int;
        assert(0 <= samples * delta) by (nonlinear_arith)
            requires
                samples >= 0,
                delta >= 0,
        ;
        lemma_stts_bounds(b, content, index + 1, count, sat_add(sc, samples), sat_add(sd, sat_mul(samples, delta)));
    }
}

fn stts_offset(content: usize, index: usize) -> (r: usize)
    ensures
        r as int == if content + 8 + index * 8 <= usize::MAX { content + 8 + index * 8 } else { usize::MAX as int },
{
    if index > (usize::MAX - 8) / 8 || content > usize::MAX - 8 - index * 8 {
        usize::MAX
    } else {
        content + 8 + index * 8
    }
}

pub fn parse_stts(bytes: &[u8], stts: IsoBox, track: &mut MovieTrack)
    ensures
        final(track)@ == stts_apply(bytes@, stts@, old(track)@),
{
    let _len: usize = bytes.len();
    let count: usize = match read_be_u32(bytes, offset_plus(stts.content, 4)) {
        Some(v) => v as usize,
        None => 0,
    };
    let ghost b = bytes@;
    let ghost t0 = track@;
    let mut index: usize = 0;
    while index < count
        invariant
            b == bytes@,
            b.len() <= usize::MAX,
            index <= count,
            count as int == or_zero32(spec_read_be_u32(b, stts.content + 4)) as int,
            track@ == (TrackView { sample_count: track@.sample_count, sample_duration: track@.sample_duration, ..t0 }),
            stts_fold(b, stts.content as int, 0, count as int, t0.sample_count as int, t0.sample_duration as int)
                == stts_fold(b, stts.content as int, index as int, count as int, track.sample_count as int, track.sample_duration as int),
        decreases count - index,
    {
        let offset = stts_offset(stts.content, index);
        let offset4 = offset_plus(offset, 4);
        let samples: u64 = match read_be_u32(bytes, offset) {
            Some(v) => v as u64,
            None => 0,
        };
        let delta: u64 = match read_be_u32(bytes, offset4) {
            Some(v) => v as u64,
            None => 0,
        };
        track.sample_count = saturating_add(track.sample_count, samples);
        track.sample_duration = saturating_add(track.sample_duration, saturating_mul(samples, delta));
        index = index + 1;
    }
}

/// The colour description of the last `colr` box among `children`.
pub open spec fn last_colr(b: Seq<u8>, children: Seq<BoxView>, current: ColorView) -> ColorView
    decreases children.len(),
{
    if children.len() == 0 {
        current
    } else {
        let next = if kind_of(children[0].kind, 'c', 'o', 'l', 'r') {
            colr_view(b, children[0])
        } else {
            current
        };
        last_colr(b, children.drop_first(), next)
    }
}

pub open spec fn handler_is(t: TrackView, a: char, b: char, c: char, d: char) -> bool {
    kind_of(t.handler, a, b, c, d)
}

/// The effect of a sample-description box on a track.
#[verifier::opaque]
pub open spec fn stsd_apply(b: Seq<u8>, stsd: BoxView, t: TrackView) -> Result<TrackView, Seq<char>> {
    let start = stsd.content + 8;
    if start + 8 > stsd.end {
        Err("movie stsd entry is truncated"@)
    } else {
        let size = or_zero32(spec_read_be_u32(b, start)) as int;
        if size < 16 || start + size > stsd.end {
            Err("movie sample entry is invalid"@)
        } else {
            let t1 = TrackView { codec: Some(codec_label(b.subrange(start + 4, start + 8))), ..t };
            if handler_is(t, 'v', 'i', 'd', 'e') {
                let w = match spec_read_be_u16(b, start + 32) {
                    Some(v) => v,
                    None => t.width as u16,
                };
                let h = match spec_read_be_u16(b, start + 34) {
                    Some(v) => v,
                    None => t.height as u16,
                };
                let t2 = TrackView { width: w as u32, height: h as u32, ..t1 };
                if size >= 86 {
                    let children = match box_list(b, start + 86, start + size) {
                        Ok(v) => v,
                        Err(_) => Seq::empty(),
                    };
                    Ok(TrackView { color: last_colr(b, children, t2.color), ..t2 })
                } else {
                    Ok(t2)
                }
            } else if handler_is(t, 's', 'o', 'u', 'n') {
                Ok(
                    TrackView {
                        audio_channels: spec_read_be_u16(b, start + 24),
                        audio_sample_rate_hz: match spec_read_be_u32(b, start + 32) {
                            Some(v) => Some((v / 65536) as u32),
                            None => None,
                        },
                        ..t1
                    },
                )
            } else {
                Ok(t1)
            }
        }
    }
}

pub fn parse_stsd(bytes: &[u8], stsd: IsoBox, track: &mut MovieTrack) -> (r: Result<(), CameraError>)
    requires
        stsd.content <= stsd.end <= bytes@.len(),
    ensures
        r is Ok ==> stsd_apply(bytes@, stsd@, old(track)@) == Ok::<TrackView, Seq<char>>(final(track)@),
        r matches Err(e) ==> stsd_apply(bytes@, stsd@, old(track)@) == Err::<TrackView, Seq<char>>(e.0@),
{
    proof {
        reveal(stsd_apply);
    }
    proof {
        reveal_strlit("movie stsd entry is truncated");
        reveal_strlit("movie sample entry is invalid");
    }
    let _len: usize = bytes.len();
    if stsd.end - stsd.content < 16 {
        return Err(camera_error("movie stsd entry is truncated"));
    }
    let start = stsd.content + 8;
    let size: usize = match read_be_u32(bytes, start) {
        Some(v) => v as usize,
        None => 0,
    };
    if size < 16 || size > stsd.end - start {
        return Err(camera_error("movie sample entry is invalid"));
    }
    let kind: [u8; 4] = [bytes[start + 4], bytes[start + 5], bytes[start + 6], bytes[start + 7]];
    assert(kind@ =~= bytes@.subrange(start + 4, start + 8));
    let ghost t = track@;
    let video = track.handler[0] == 0x76 && track.handler[1] == 0x69 && track.handler[2] == 0x64 && track.handler[3] == 0x65;
    let sound = track.handler[0] == 0x73 && track.handler[1] == 0x6f && track.handler[2] == 0x75 && track.handler[3] == 0x6e;
    track.codec = Some(codec_name(kind));
    if video {
        #[verifier::truncate]
        let fallback_w = track.width as u16;
        #[verifier::truncate]
        let fallback_h = track.height as u16;
        let w = match read_be_u16(bytes, offset_plus(start, 32)) {
            Some(v) => v,
            None => fallback_w,
        };
        let h = match read_be_u16(bytes, offset_plus(start, 34)) {
            Some(v) => v,
            None => fallback_h,
        };
        track.width = w as u32;
        track.height = h as u32;
        if size >= 86 {
            let children = match boxes(bytes, start + 86, start + size) {
                Ok(v) => v,
                Err(_) => Vec::new(),
            };
            let ghost cv = boxes_view(children@);
            let ghost c0 = track.color@;
            let ghost t2 = track@;
            assert(cv.subrange(0, cv.len() as int) =~= cv);
            let mut i: usize = 0;
            while i < children.len()
                invariant
                    i <= children@.len(),
                    track@ == (TrackView { color: track@.color, ..t2 }),
                    cv == boxes_view(children@),
                    last_colr(bytes@, cv, c0) == last_colr(bytes@, cv.subrange(i as int, cv.len() as int), track.color@),
                decreases children.len() - i,
            {
                let ghost rest = cv.subrange(i as int, cv.len() as int);
                assert(rest.drop_first() =~= cv.subrange(i + 1, cv.len() as int));
                assert(rest[0] == children@[i as int]@);
                let child = children[i];
                if child.kind[0] == 0x63 && child.kind[1] == 0x6f && child.kind[2] == 0x6c && child.kind[3] == 0x72 {
                    track.color = parse_colr(bytes, child);
                }
                i = i + 1;
            }
            assert(cv.subrange(cv.len() as int, cv.len() as int) =~= Seq::<BoxView>::empty());
        }
    } else if sound {
        let offset24 = offset_plus(start, 24);
        let offset32 = offset_plus(start, 32);
        track.audio_channels = read_be_u16(bytes, offset24);
        track.audio_sample_rate_hz = match read_be_u32(bytes, offset32) {
            Some(v) => Some(v / 65536),
            None => None,
        };
    }
    Ok(())
}

pub open spec fn byte_or_zero(b: Seq<u8>, i: int) -> u8 {
    if 0 <= i < b.len() {
        b[i]
    } else {
        0
    }
}

/// The effect of a track header box: transform matrix and presentation size.
#[verifier::opaque]
pub open spec fn tkhd_apply(b: Seq<u8>, tkhd: BoxView, t: TrackView) -> TrackView {
    let c = tkhd.content;
    let version = byte_or_zero(b, c);
    let m = c + if version == 1 { 52int } else { 40int };
    let d = c + if version == 1 { 88int } else { 76int };
    let transform = match (
        spec_read_be_i32(b, m),
        spec_read_be_i32(b, m + 4),
        spec_read_be_i32(b, m + 12),
        spec_read_be_i32(b, m + 16),
    ) {
        (Some(x), Some(y), Some(z), Some(w)) => matrix_transform_spec(x as int, y as int, z as int, w as int),
        _ => (t.rotation_degrees, t.mirrored),
    };
    TrackView {
        rotation_degrees: transform.0,
        mirrored: transform.1,
        width: (or_zero32(spec_read_be_u32(b, d)) / 65536) as u32,
        height: (or_zero32(spec_read_be_u32(b, d + 4)) / 65536) as u32,
        ..t
    }
}

/// The effect of a media header box: timescale and duration.
#[verifier::opaque]
pub open spec fn mdhd_apply(b: Seq<u8>, mdhd: BoxView, t: TrackView) -> TrackView {
    let c = mdhd.content;
    let version = byte_or_zero(b, c);
    let offset = c + if version == 1 { 20int } else { 12int };
    TrackView {
        timescale: or_zero32(spec_read_be_u32(b, offset)),
        duration: if version == 1 {
            or_zero64(spec_read_be_u64(b, offset + 4))
        } else {
            or_zero32(spec_read_be_u32(b, offset + 4)) as u64
        },
        ..t
    }
}

/// The effect of a handler box: the handler type.
#[verifier::opaque]
pub open spec fn hdlr_apply(b: Seq<u8>, hdlr: BoxView, t: TrackView) -> TrackView {
    if fits(b.len() as int, hdlr.content + 8, 4) {
        TrackView { handler: b.subrange(hdlr.content + 8, hdlr.content + 12), ..t }
    } else {
        t
    }
}

/// The effect of the sample-table boxes, in order.
#[verifier::opaque]
pub open spec fn stbl_fold(b: Seq<u8>, items: Seq<BoxView>, t: TrackView) -> Result<TrackView, Seq<char>>
    decreases items.len(),
{
    if items.len() == 0 {
        Ok(t)
    } else {
        let item = items[0];
        let after_stsd = if kind_of(item.kind, 's', 't', 's', 'd') {
            stsd_apply(b, item, t)
        } else {
            Ok(t)
        };
        match after_stsd {
            Err(m) => Err(m),
            Ok(t1) => {
                let t2 = if kind_of(item.kind, 's', 't', 't', 's') {
                    stts_apply(b, item, t1)
                } else {
                    t1
                };
                stbl_fold(b, items.drop_first(), t2)
            },
        }
    }
}

/// The sample table of a media box's `minf`, if one can be found.
#[verifier::opaque]
pub open spec fn find_stbl(b: Seq<u8>, mc: Seq<BoxView>) -> Option<BoxView> {
    match first_of(mc, 'm', 'i', 'n', 'f') {
        None => None,
        Some(i) => match box_list(b, mc[i].content, mc[i].end) {
            Err(_) => None,
            Ok(inner) => match first_of(inner, 's', 't', 'b', 'l') {
                Some(j) => Some(inner[j]),
                None => None,
            },
        },
    }
}

/// The effect of a media (`mdia`) box on a track, or why it is malformed.
#[verifier::opaque]
pub open spec fn media_apply(b: Seq<u8>, mdia: BoxView, t1: TrackView) -> Result<TrackView, Seq<char>> {
    match box_list(b, mdia.content, mdia.end) {
        Err(m) => Err(m),
        Ok(mc) => {
            let t2 = match first_of(mc, 'm', 'd', 'h', 'd') {
                Some(i) => mdhd_apply(b, mc[i], t1),
                None => t1,
            };
            let t3 = match first_of(mc, 'h', 'd', 'l', 'r') {
                Some(i) => hdlr_apply(b, mc[i], t2),
                None => t2,
            };
            match find_stbl(b, mc) {
                None => Ok(t3),
                Some(stbl) => match box_list(b, stbl.content, stbl.end) {
                    Err(m) => Err(m),
                    Ok(items) => stbl_fold(b, items, t3),
                },
            }
        },
    }
}

/// What a `trak` box describes, or why it is malformed.
pub open spec fn track_spec(b: Seq<u8>, trak: BoxView) -> Result<TrackView, Seq<char>> {
    match box_list(b, trak.content, trak.end) {
        Err(m) => Err(m),
        Ok(children) => {
            let t1 = match first_of(children, 't', 'k', 'h', 'd') {
                Some(i) => tkhd_apply(b, children[i], empty_track()),
                None => empty_track(),
            };
            match first_of(children, 'm', 'd', 'i', 'a') {
                None => Err("movie track has no mdia box"@),
                Some(mi) => media_apply(b, children[mi], t1),
            }
        },
    }
}

proof fn lemma_first_of(v: Seq<BoxView>, i: int, a: char, b: char, c: char, d: char)
    requires
        0 <= i < v.len(),
        kind_of(v[i].kind, a, b, c, d),
        forall|j: int| 0 <= j < i ==> !kind_of(#[trigger] v[j].kind, a, b, c, d),
    ensures
        first_of(v, a, b, c, d) == Some(i),
{
    reveal(first_of);
    let k = choose|k: int| 0 <= k < v.len() && kind_of(v[k].kind, a, b, c, d) && forall|j: int|
        0 <= j < k ==> !kind_of(#[trigger] v[j].kind, a, b, c, d);
    if k < i {
        assert(!kind_of(v[k].kind, a, b, c, d));
    }
    if k > i {
        assert(!kind_of(v[i].kind, a, b, c, d));
    }
}

fn first_box(v: &Vec<IsoBox>, a: u8, b: u8, c: u8, d: u8) -> (r: Option<IsoBox>)
    ensures
        r matches Some(x) ==> first_of(boxes_view(v@), a as char, b as char, c as char, d as char) matches Some(i)
            && 0 <= i < v@.len() && x == v@[i],
        r is None ==> first_of(boxes_view(v@), a as char, b as char, c as char, d as char) is None,
{
    proof {
        reveal(first_of);
    }
    let ghost bv = boxes_view(v@);
    match find_kind(v, a, b, c, d) {
        Some(i) => {
            proof {
                assert forall|j: int| 0 <= j < i implies !kind_of(#[trigger] bv[j].kind, a as char, b as char, c as char, d as char) by {
                    assert(bv[j] == v@[j]@);
                }
                lemma_first_of(bv, i as int, a as char, b as char, c as char, d as char);
            }
            Some(v[i])
        },
        None => {
            assert forall|j: int| 0 <= j < bv.len() implies !kind_of(#[trigger] bv[j].kind, a as char, b as char, c as char, d as char) by {
                assert(bv[j] == v@[j]@);
            }
            None
        },
    }
}

fn tkhd_update(bytes: &[u8], tkhd: IsoBox, track: &mut MovieTrack)
    ensures
        final(track)@ == tkhd_apply(bytes@, tkhd@, old(track)@),
{
    proof {
        reveal(tkhd_apply);
    }
    let _len: usize = bytes.len();
    let c = tkhd.content;
    let version: u8 = if c < bytes.len() { bytes[c] } else { 0 };
    let m = offset_plus(c, if version == 1 { 52 } else { 40 });
    let d = offset_plus(c, if version == 1 { 88 } else { 76 });
    let m4 = offset_plus(m, 4);
    let m12 = offset_plus(m, 12);
    let m16 = offset_plus(m, 16);
    let d4 = offset_plus(d, 4);
    match (read_be_i32(bytes, m), read_be_i32(bytes, m4), read_be_i32(bytes, m12), read_be_i32(bytes, m16)) {
        (Some(x), Some(y), Some(z), Some(w)) => {
            let (rotation, mirrored) = matrix_transform(x, y, z, w);
            track.rotation_degrees = rotation;
            track.mirrored = mirrored;
        },
        _ => {},
    }
    track.width = match read_be_u32(bytes, d) {
        Some(v) => v,
        None => 0,
    } / 65536;
    track.height = match read_be_u32(bytes, d4) {
        Some(v) => v,
        None => 0,
    } / 65536;
}

fn mdhd_update(bytes: &[u8], mdhd: IsoBox, track: &mut MovieTrack)
    ensures
        final(track)@ == mdhd_apply(bytes@, mdhd@, old(track)@),
{
    proof {
        reveal(mdhd_apply);
    }
    let _len: usize = bytes.len();
    let c = mdhd.content;
    let version: u8 = if c < bytes.len() { bytes[c] } else { 0 };
    let offset = offset_plus(c, if version == 1 { 20 } else { 12 });
    let offset4 = offset_plus(offset, 4);
    track.timescale = match read_be_u32(bytes, offset) {
        Some(v) => v,
        None => 0,
    };
    track.duration = if version == 1 {
        match read_be_u64(bytes, offset4) {
            Some(v) => v,
            None => 0,
        }
    } else {
        match read_be_u32(bytes, offset4) {
            Some(v) => v as u64,
            None => 0,
        }
    };
}

fn apply_sample_table(bytes: &[u8], items: &Vec<IsoBox>, track: &mut MovieTrack) -> (r: Result<(), CameraError>)
    requires
        forall|k: int| 0 <= k < items@.len() ==> #[trigger] items@[k].content <= items@[k].end <= bytes@.len(),
    ensures
        r is Ok ==> stbl_fold(bytes@, boxes_view(items@), old(track)@) == Ok::<TrackView, Seq<char>>(final(track)@),
        r matches Err(e) ==> stbl_fold(bytes@, boxes_view(items@), old(track)@) == Err::<TrackView, Seq<char>>(e.0@),
{
    proof {
        reveal(stbl_fold);
    }
    let ghost b = bytes@;
    let ghost iv = boxes_view(items@);
    let ghost t3 = track@;
    assert(iv.subrange(0, iv.len() as int) =~= iv);
    let mut i: usize = 0;
    while i < items.len()
        invariant
            b == bytes@,
            i <= items@.len(),
            iv == boxes_view(items@),
            t3 == old(track)@,
            forall|k: int| 0 <= k < items@.len() ==> #[trigger] items@[k].content <= items@[k].end <= b.len(),
            stbl_fold(b, iv, t3) == stbl_fold(b, iv.subrange(i as int, iv.len() as int), track@),
        decreases items.len() - i,
    {
        proof {
            reveal(stbl_fold);
        }
        let ghost rest = iv.subrange(i as int, iv.len() as int);
        assert(rest.drop_first() =~= iv.subrange(i + 1, iv.len() as int));
        assert(rest[0] == items@[i as int]@);
        let item = items[i];
        let k = item.kind;
        if k[0] == 0x73 && k[1] == 0x74 && k[2] == 0x73 && k[3] == 0x64 {
            assert(kind_of(rest[0].kind, 's', 't', 's', 'd'));
            let ghost tb = track@;
            match parse_stsd(bytes, item, track) {
                Ok(()) => {},
                Err(e) => {
                    assert(stsd_apply(b, rest[0], tb) == Err::<TrackView, Seq<char>>(e.0@));
                    assert(stbl_fold(b, rest, tb) == Err::<TrackView, Seq<char>>(e.0@));
                    return Err(e);
                },
            }
        }
        if k[0] == 0x73 && k[1] == 0x74 && k[2] == 0x74 && k[3] == 0x73 {
            parse_stts(bytes, item, track);
        }
        i = i + 1;
    }
    assert(iv.subrange(iv.len() as int, iv.len() as int) =~= Seq::<BoxView>::empty());
    Ok(())
}

fn parse_media(bytes: &[u8], mdia: IsoBox, track: &mut MovieTrack) -> (r: Result<(), CameraError>)
    requires
        mdia.content <= mdia.end <= bytes@.len(),
    ensures
        r is Ok ==> media_apply(bytes@, mdia@, old(track)@) == Ok::<TrackView, Seq<char>>(final(track)@),
        r matches Err(e) ==> media_apply(bytes@, mdia@, old(track)@) == Err::<TrackView, Seq<char>>(e.0@),
{
    proof {
        reveal(media_apply);
        reveal(find_stbl);
        reveal(hdlr_apply);
    }
    let ghost b = bytes@;
    let mdia_children = boxes(bytes, mdia.content, mdia.end)?;
    proof {
        lemma_boxes_in_bounds(b, mdia_children@, mdia.content as int, mdia.end as int);
    }
    if let Some(mdhd) = first_box(&mdia_children, 0x6d, 0x64, 0x68, 0x64) {
        mdhd_update(bytes, mdhd, track);
    }
    if let Some(hdlr) = first_box(&mdia_children, 0x68, 0x64, 0x6c, 0x72) {
        let h = offset_plus(hdlr.content, 8);
        if h <= bytes.len() && bytes.len() - h >= 4 {
            track.handler = [bytes[h], bytes[h + 1], bytes[h + 2], bytes[h + 3]];
            assert(track.handler@ =~= b.subrange(h as int, h + 4));
        }
    }
    let stbl: Option<IsoBox> = match first_box(&mdia_children, 0x6d, 0x69, 0x6e, 0x66) {
        None => None,
        Some(minf) => {
            match boxes(bytes, minf.content, minf.end) {
                Err(_) => None,
                Ok(inner) => {
                    proof {
                        lemma_boxes_in_bounds(b, inner@, minf.content as int, minf.end as int);
                    }
                    first_box(&inner, 0x73, 0x74, 0x62, 0x6c)
                },
            }
        },
    };
    match stbl {
        None => {},
        Some(s) => {
            assert(s.content <= s.end <= b.len());
            let items = boxes(bytes, s.content, s.end)?;
            proof {
                lemma_boxes_in_bounds(b, items@, s.content as int, s.end as int);
            }
            apply_sample_table(bytes, &items, track)?;
        },
    }
    Ok(())
}

pub fn parse_track(bytes: &[u8], trak: IsoBox) -> (r: Result<MovieTrack, CameraError>)
    requires
        trak.content <= trak.end <= bytes@.len(),
    ensures
        r matches Ok(t) ==> track_spec(bytes@, trak@) == Ok::<TrackView, Seq<char>>(t@),
        r matches Err(e) ==> track_spec(bytes@, trak@) == Err::<TrackView, Seq<char>>(e.0@),
{
    let ghost b = bytes@;
    let children = boxes(bytes, trak.content, trak.end)?;
    proof {
        lemma_boxes_in_bounds(b, children@, trak.content as int, trak.end as int);
    }
    let mut track = MovieTrack {
        handler: [0, 0, 0, 0],
        codec: None,
        width: 0,
        height: 0,
        timescale: 0,
        duration: 0,
        sample_count: 0,
        sample_duration: 0,
        rotation_degrees: 0,
        mirrored: false,
        audio_channels: None,
        audio_sample_rate_hz: None,
        color: CapturedColorMetadata {
            embedded_profile: None,
            color_primaries: None,
            transfer_characteristic: None,
            matrix_coefficients: None,
            full_range: None,
        },
    };
    assert(track@ == empty_track()) by {
        assert(track.handler@ =~= seq![0u8, 0, 0, 0]);
    }
    if let Some(tkhd) = first_box(&children, 0x74, 0x6b, 0x68, 0x64) {
        tkhd_update(bytes, tkhd, &mut track);
    }
    let mdia = match first_box(&children, 0x6d, 0x64, 0x69, 0x61) {
        Some(m) => m,
        None => {
            proof {
                reveal_strlit("movie track has no mdia box");
            }
            return Err(camera_error("movie track has no mdia box"));
        },
    };
    parse_media(bytes, mdia, &mut track)?;
    Ok(track)
}

// ---------------------------------------------------------------------------
// Whole movies.

pub open spec fn tracks_view(v: Seq<MovieTrack>) -> Seq<TrackView> {
    v.map_values(|t: MovieTrack| t@)
}

/// The tracks described by the `trak` boxes among a movie's children, in order,
/// or the first reason one of them is malformed.
pub open spec fn tracks_spec(b: Seq<u8>, children: Seq<BoxView>) -> Result<Seq<TrackView>, Seq<char>>
    decreases children.len(),
{
    if children.len() == 0 {
        Ok(Seq::empty())
    } else if kind_of(children[0].kind, 't', 'r', 'a', 'k') {
        match track_spec(b, children[0]) {
            Err(m) => Err(m),
            Ok(t) => match tracks_spec(b, children.drop_first()) {
                Err(m) => Err(m),
                Ok(rest) => Ok(seq![t] + rest),
            },
        }
    } else {
        tracks_spec(b, children.drop_first())
    }
}

/// The first track with the given handler type.
pub open spec fn first_handler(ts: Seq<TrackView>, a: char, b: char, c: char, d: char) -> Option<TrackView>
    decreases ts.len(),
{
    if ts.len() == 0 {
        None
    } else if handler_is(ts[0], a, b, c, d) {
        Some(ts[0])
    } else {
        first_handler(ts.drop_first(), a, b, c, d)
    }
}

/// Frame rate of a video track: samples per second as a reduced fraction
/// (the product of sample count and timescale wraps within `u64`).
pub open spec fn track_frame_rate(v: TrackView) -> Option<RationalRate> {
    if v.sample_count > 0 && v.sample_duration > 0 && v.timescale > 0 {
        Some(
            reduce_rate_spec(
                ((v.sample_count as nat * v.timescale as nat) % 0x1_0000_0000_0000_0000) as u64,
                v.sample_duration,
            ),
        )
    } else {
        None
    }
}

/// The movie header's duration, or else the video track's own.
pub open spec fn movie_duration(declared: Option<u64>, v: TrackView) -> Option<u64> {
    match declared {
        Some(d) => Some(d),
        None => if v.timescale > 0 && v.duration > 0 {
            Some((sat_mul(v.duration as int, 1000) / (v.timescale as int)) as u64)
        } else {
            None
        },
    }
}

pub open spec fn is_quicktime_brand(b: Seq<u8>, ftyp: BoxView) -> bool {
    fits(b.len() as int, ftyp.content, 4) && b[ftyp.content] == 0x71 && b[ftyp.content + 1] == 0x74
        && b[ftyp.content + 2] == 0x20 && b[ftyp.content + 3] == 0x20
}

pub open spec fn movie_resource(
    path: Seq<char>,
    len: nat,
    quicktime: bool,
    declared: Option<u64>,
    v: TrackView,
    audio: Option<TrackView>,
) -> ResourceView {
    ResourceView {
        path,
        byte_length: len as u64,
        container: if quicktime { "quicktime"@ } else { "mp4"@ },
        video_codec: v.codec,
        audio_codec: match audio {
            Some(a) => a.codec,
            None => None,
        },
        pixel_width: v.width,
        pixel_height: v.height,
        bit_depth: None,
        orientation: 1,
        orientation_explicit: false,
        rotation_degrees: v.rotation_degrees,
        mirrored: v.mirrored,
        frame_rate: track_frame_rate(v),
        duration_ms: movie_duration(declared, v),
        audio_channels: match audio {
            Some(a) => a.audio_channels,
            None => None,
        },
        audio_sample_rate_hz: match audio {
            Some(a) => a.audio_sample_rate_hz,
            None => None,
        },
        color: v.color,
    }
}

/// What probing an ISO-BMFF movie yields: its resource, or why it is refused.
pub open spec fn movie_probe(path: Seq<char>, b: Seq<u8>) -> Result<ResourceView, Seq<char>> {
    match box_list(b, 0, b.len() as int) {
        Err(m) => Err(m),
        Ok(top) => match first_of(top, 'f', 't', 'y', 'p') {
            None => Err("movie output has no ftyp box"@),
            Some(fi) => match first_of(top, 'm', 'o', 'o', 'v') {
                None => Err("movie output is not finalized (moov missing)"@),
                Some(mi) => match box_list(b, top[mi].content, top[mi].end) {
                    Err(m) => Err(m),
                    Ok(mc) => {
                        let declared = match first_of(mc, 'm', 'v', 'h', 'd') {
                            Some(i) => header_duration_ms(b, mc[i]),
                            None => None,
                        };
                        match tracks_spec(b, mc) {
                            Err(m) => Err(m),
                            Ok(ts) => match first_handler(ts, 'v', 'i', 'd', 'e') {
                                None => Err("movie output has no video track"@),
                                Some(v) => Ok(
                                    movie_resource(
                                        path,
                                        b.len(),
                                        is_quicktime_brand(b, top[fi]),
                                        declared,
                                        v,
                                        first_handler(ts, 's', 'o', 'u', 'n'),
                                    ),
                                ),
                            },
                        }
                    },
                },
            },
        },
    }
}

fn find_track(tracks: &Vec<MovieTrack>, a: u8, b: u8, c: u8, d: u8) -> (r: Option<usize>)
    ensures
        r matches Some(i) ==> i < tracks@.len() && first_handler(
            tracks_view(tracks@),
            a as char,
            b as char,
            c as char,
            d as char,
        ) == Some(tracks@[i as int]@),
        r is None ==> first_handler(tracks_view(tracks@), a as char, b as char, c as char, d as char) is None,
{
    let ghost tv = tracks_view(tracks@);
    assert(tv.subrange(0, tv.len() as int) =~= tv);
    let mut i: usize = 0;
    while i < tracks.len()
        invariant
            i <= tracks@.len(),
            tv == tracks_view(tracks@),
            first_handler(tv, a as char, b as char, c as char, d as char) == first_handler(
                tv.subrange(i as int, tv.len() as int),
                a as char,
                b as char,
                c as char,
                d as char,
            ),
        decreases tracks.len() - i,
    {
        let ghost rest = tv.subrange(i as int, tv.len() as int);
        assert(rest.drop_first() =~= tv.subrange(i + 1, tv.len() as int));
        assert(rest[0] == tracks@[i as int]@);
        let h = tracks[i].handler;
        if h[0] == a && h[1] == b && h[2] == c && h[3] == d {
            return Some(i);
        }
        i = i + 1;
    }
    assert(tv.subrange(tv.len() as int, tv.len() as int) =~= Seq::<TrackView>::empty());
    None
}

fn collect_tracks(bytes: &[u8], children: &Vec<IsoBox>) -> (r: Result<Vec<MovieTrack>, CameraError>)
    requires
        forall|k: int| 0 <= k < children@.len() ==> #[trigger] children@[k].content <= children@[k].end <= bytes@.len(),
    ensures
        r matches Ok(v) ==> tracks_spec(bytes@, boxes_view(children@)) == Ok::<Seq<TrackView>, Seq<char>>(tracks_view(v@)),
        r matches Err(e) ==> tracks_spec(bytes@, boxes_view(children@)) == Err::<Seq<TrackView>, Seq<char>>(e.0@),
{
    let ghost b = bytes@;
    let ghost cv = boxes_view(children@);
    assert(cv.subrange(0, cv.len() as int) =~= cv);
    let mut tracks: Vec<MovieTrack> = Vec::new();
    let mut i: usize = 0;
    while i < children.len()
        invariant
            b == bytes@,
            i <= children@.len(),
            cv == boxes_view(children@),
            forall|k: int| 0 <= k < children@.len() ==> #[trigger] children@[k].content <= children@[k].end <= b.len(),
            tracks_spec(b, cv) == (match tracks_spec(b, cv.subrange(i as int, cv.len() as int)) {
                Err(m) => Err(m),
                Ok(rest) => Ok::<Seq<TrackView>, Seq<char>>(tracks_view(tracks@) + rest),
            }),
        decreases children.len() - i,
    {
        let ghost rest = cv.subrange(i as int, cv.len() as int);
        assert(rest.drop_first() =~= cv.subrange(i + 1, cv.len() as int));
        assert(rest[0] == children@[i as int]@);
        let child = children[i];
        let k = child.kind;
        if k[0] == 0x74 && k[1] == 0x72 && k[2] == 0x61 && k[3] == 0x6b {
            let t = parse_track(bytes, child)?;
            let ghost before = tracks@;
            tracks.push(t);
            proof {
                assert(tracks_view(tracks@) =~= tracks_view(before).push(t@));
                match tracks_spec(b, cv.subrange(i + 1, cv.len() as int)) {
                    Err(m) => {},
                    Ok(more) => {
                        assert(tracks_view(before) + (seq![t@] + more) =~= tracks_view(tracks@) + more);
                    },
                }
            }
        }
        i = i + 1;
    }
    assert(cv.subrange(cv.len() as int, cv.len() as int) =~= Seq::<BoxView>::empty());
    assert(tracks_view(tracks@) + Seq::<TrackView>::empty() =~= tracks_view(tracks@));
    Ok(tracks)
}

pub fn probe_isobmff(path: &str, bytes: &[u8]) -> (r: Result<MediaResource, CameraError>)
    ensures
        r matches Ok(m) ==> movie_probe(path@, bytes@) == Ok::<ResourceView, Seq<char>>(m@),
        r matches Err(e) ==> movie_probe(path@, bytes@) == Err::<ResourceView, Seq<char>>(e.0@),
{
    proof {
        reveal_strlit("movie output has no ftyp box");
        reveal_strlit("movie output is not finalized (moov missing)");
        reveal_strlit("movie output has no video track");
        reveal_strlit("quicktime");
        reveal_strlit("mp4");
    }
    let ghost b = bytes@;
    let top = boxes(bytes, 0, bytes.len())?;
    proof {
        lemma_boxes_in_bounds(b, top@, 0, b.len() as int);
    }
    let ftyp = match first_box(&top, 0x66, 0x74, 0x79, 0x70) {
        Some(f) => f,
        None => return Err(camera_error("movie output has no ftyp box")),
    };
    let c = ftyp.content;
    let quicktime = c <= bytes.len() && bytes.len() - c >= 4 && bytes[c] == 0x71 && bytes[c + 1] == 0x74
        && bytes[c + 2] == 0x20 && bytes[c + 3] == 0x20;
    let moov = match first_box(&top, 0x6d, 0x6f, 0x6f, 0x76) {
        Some(m) => m,
        None => return Err(camera_error("movie output is not finalized (moov missing)")),
    };
    let moov_children = boxes(bytes, moov.content, moov.end)?;
    proof {
        lemma_boxes_in_bounds(b, moov_children@, moov.content as int, moov.end as int);
    }
    let declared = match first_box(&moov_children, 0x6d, 0x76, 0x68, 0x64) {
        Some(mvhd) => media_header_duration_ms(bytes, mvhd),
        None => None,
    };
    let tracks = collect_tracks(bytes, &moov_children)?;
    let vi = match find_track(&tracks, 0x76, 0x69, 0x64, 0x65) {
        Some(i) => i,
        None => return Err(camera_error("movie output has no video track")),
    };
    let ai = find_track(&tracks, 0x73, 0x6f, 0x75, 0x6e);
    let video = &tracks[vi];
    let frame_rate = if video.sample_count > 0 && video.sample_duration > 0 && video.timescale > 0 {
        Some(reduce_rate(video.sample_count.wrapping_mul(video.timescale as u64), video.sample_duration))
    } else {
        None
    };
    let duration_ms = match declared {
        Some(d) => Some(d),
        None => if video.timescale > 0 && video.duration > 0 {
            Some(saturating_mul(video.duration, 1000) / video.timescale as u64)
        } else {
            None
        },
    };
    let (audio_codec, audio_channels, audio_sample_rate_hz) = match ai {
        Some(i) => (copy_opt_string(&tracks[i].codec), tracks[i].audio_channels, tracks[i].audio_sample_rate_hz),
        None => (None, None, None),
    };
    let r = MediaResource {
        path: owned(path),
        byte_length: bytes.len() as u64,
        container: if quicktime { owned("quicktime") } else { owned("mp4") },
        video_codec: copy_opt_string(&video.codec),
        audio_codec,
        pixel_width: video.width,
        pixel_height: video.height,
        bit_depth: None,
        orientation: 1,
        orientation_explicit: false,
        rotation_degrees: video.rotation_degrees,
        mirrored: video.mirrored,
        frame_rate,
        duration_ms,
        audio_channels,
        audio_sample_rate_hz,
        color: video.color.duplicate(),
    };
    let ghost ts = tracks_view(tracks@);
    let ghost audio = first_handler(ts, 's', 'o', 'u', 'n');
    assert(r@ == movie_resource(path@, b.len(), is_quicktime_brand(b, ftyp@), declared, tracks@[vi as int]@, audio));
    Ok(r)
}

/// What probing captured bytes as the given media type yields.
pub open spec fn media_probe(path: Seq<char>, media_type: CapturedMediaType, b: Seq<u8>) -> Result<ResourceView, Seq<char>> {
    if b.len() == 0 {
        Err("captured asset is empty"@)
    } else {
        match media_type {
            CapturedMediaType::Photo => jpeg_probe(path, b),
            CapturedMediaType::Video => movie_probe(path, b),
        }
    }
}

/// Probes the bytes of a captured file: a JPEG for a photo, a movie for a video.
pub fn probe_media_bytes(path: &str, media_type: CapturedMediaType, bytes: &[u8]) -> (r: Result<MediaResource, CameraError>)
    ensures
        r matches Ok(m) ==> media_probe(path@, media_type, bytes@) == Ok::<ResourceView, Seq<char>>(m@),
        r matches Err(e) ==> media_probe(path@, media_type, bytes@) == Err::<ResourceView, Seq<char>>(e.0@),
{
    proof {
        reveal_strlit("captured asset is empty");
    }
    if bytes.len() == 0 {
        return Err(camera_error("captured asset is empty"));
    }
    match media_type {
        CapturedMediaType::Photo => probe_jpeg(path, bytes),
        CapturedMediaType::Video => probe_isobmff(path, bytes),
    }
}

/// A probed file passes the container check of its own kind: whatever
/// container the movie probe reports is a video container, and the JPEG
/// probe's a photo container. A probed photo is shown as its EXIF
/// orientation says: its rotation and mirroring put the stored first row and
/// first column on the edges that orientation names.
pub proof fn law_probed_files_pass_their_container_check(
    path: Seq<char>,
    bytes: Seq<u8>,
    resource: MediaResource,
    selected: SelectedCaptureFormat,
)
    ensures
        movie_probe(path, bytes) == Ok::<ResourceView, Seq<char>>(resource@) ==> resource_checks(
            resource,
            CapturedMediaType::Video,
            selected,
        )[1].status == ValidationStatus::Passed,
        jpeg_probe(path, bytes) == Ok::<ResourceView, Seq<char>>(resource@) ==> resource_checks(
            resource,
            CapturedMediaType::Photo,
            selected,
        )[1].status == ValidationStatus::Passed && shown_edge(
            ImageEdge::Top,
            resource.rotation_degrees,
            resource.mirrored,
        ) == exif_first_row_and_column(resource.orientation).0 && shown_edge(
            ImageEdge::Left,
            resource.rotation_degrees,
            resource.mirrored,
        ) == exif_first_row_and_column(resource.orientation).1,
{
    if jpeg_probe(path, bytes) == Ok::<ResourceView, Seq<char>>(resource@) {
        crate::asset::law_exif_transform_shows_the_orientation(resource.orientation);
    }
}

} // verus!
