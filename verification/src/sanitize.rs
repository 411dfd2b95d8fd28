//! Privacy rewriting of JPEG streams before they leave the device.
use vstd::prelude::*;
use crate::bytes::{be16, extend_range, fits, has_prefix_at, read_be_u16};
use crate::transfer::TransferError;

verus! {

pub open spec fn starts_with(payload: Seq<u8>, prefix: Seq<u8>) -> bool {
    prefix.len() <= payload.len() && payload.subrange(0, prefix.len() as int) == prefix
}

pub open spec fn jfif_tag() -> Seq<u8> {
    seq![0x4au8, 0x46, 0x49, 0x46, 0x00]
}

pub open spec fn jfxx_tag() -> Seq<u8> {
    seq![0x4au8, 0x46, 0x58, 0x58, 0x00]
}

pub open spec fn icc_tag() -> Seq<u8> {
    seq![0x49u8, 0x43, 0x43, 0x5f, 0x50, 0x52, 0x4f, 0x46, 0x49, 0x4c, 0x45, 0x00]
}

pub open spec fn adobe_tag() -> Seq<u8> {
    seq![0x41u8, 0x64, 0x6f, 0x62, 0x65]
}

/// Whether a segment is dropped: comments, and application segments other
/// than standard JFIF/JFXX headers and the ICC / Adobe colour segments.
pub open spec fn strips_segment(marker: u8, payload: Seq<u8>) -> bool {
    let is_app = 0xe0 <= marker <= 0xef;
    let standard_app0 = marker == 0xe0 && (starts_with(payload, jfif_tag()) || starts_with(payload, jfxx_tag()));
    let color = (marker == 0xe2 && starts_with(payload, icc_tag())) || (marker == 0xee && starts_with(
        payload,
        adobe_tag(),
    ));
    marker == 0xfe || (is_app && !standard_app0 && !color)
}

/// The first position at or after `i` that does not hold a fill byte.
pub open spec fn skip_fill(b: Seq<u8>, i: int) -> int
    decreases b.len() - i,
{
    if 0 <= i < b.len() && b[i] == 0xff {
        skip_fill(b, i + 1)
    } else {
        i
    }
}

proof fn lemma_skip_fill(b: Seq<u8>, i: int)
    requires
        0 <= i,
    ensures
        i <= skip_fill(b, i),
        skip_fill(b, i) <= b.len() || skip_fill(b, i) == i,
        forall|k: int| i <= k < skip_fill(b, i) ==> b[k] == 0xff,
        skip_fill(b, i) < b.len() ==> b[skip_fill(b, i)] != 0xff,
    decreases b.len() - i,
{
    if 0 <= i < b.len() && b[i] == 0xff {
        lemma_skip_fill(b, i + 1);
    }
}

/// The rewritten stream from the marker at `cursor` on, and the number of
/// segments dropped, or why the stream is malformed.
pub open spec fn sanitize_scan(b: Seq<u8>, cursor: int) -> Result<(Seq<u8>, nat), TransferError>
    decreases b.len() - cursor,
{
    if cursor < 0 || cursor >= b.len() || b[cursor] != 0xff {
        Err(TransferError::MalformedJpeg)
    } else {
        let m = skip_fill(b, cursor);
        if m >= b.len() || m <= cursor {
            Err(TransferError::MalformedJpeg)
        } else {
            let marker = b[m];
            let after = m + 1;
            if marker == 0xda {
                Ok((b.subrange(cursor, b.len() as int), 0))
            } else if marker == 0xd9 {
                Ok((b.subrange(cursor, after), 0))
            } else if marker == 0x01 || (0xd0 <= marker <= 0xd7) {
                match sanitize_scan(b, after) {
                    Err(e) => Err(e),
                    Ok((rest, removed)) => Ok((b.subrange(cursor, after) + rest, removed)),
                }
            } else if !fits(b.len() as int, after, 2) || be16(b, after) < 2 || after + be16(b, after) > b.len() {
                Err(TransferError::MalformedJpeg)
            } else {
                let end = after + be16(b, after);
                let strip = strips_segment(marker, b.subrange(after + 2, end));
                match sanitize_scan(b, end) {
                    Err(e) => Err(e),
                    Ok((rest, removed)) => if strip {
                        Ok((rest, removed + 1))
                    } else {
                        Ok((b.subrange(cursor, end) + rest, removed))
                    },
                }
            }
        }
    }
}

/// A JPEG without its metadata-bearing segments, and how many were dropped.
pub open spec fn sanitized_jpeg(b: Seq<u8>) -> Result<(Seq<u8>, nat), TransferError> {
    if b.len() < 2 || b[0] != 0xff || b[1] != 0xd8 || b[b.len() - 2] != 0xff || b[b.len() - 1] != 0xd9 {
        Err(TransferError::UnsupportedMediaForSanitization)
    } else {
        match sanitize_scan(b, 2) {
            Err(e) => Err(e),
            Ok((rest, removed)) => Ok((b.subrange(0, 2) + rest, removed)),
        }
    }
}

fn segment_is_stripped(input: &[u8], marker: u8, start: usize, end: usize) -> (r: bool)
    requires
        start <= end <= input@.len(),
    ensures
        r == strips_segment(marker, input@.subrange(start as int, end as int)),
{
    let ghost payload = input@.subrange(start as int, end as int);
    let jfif: [u8; 5] = [0x4a, 0x46, 0x49, 0x46, 0x00];
    let jfxx: [u8; 5] = [0x4a, 0x46, 0x58, 0x58, 0x00];
    let icc: [u8; 12] = [0x49, 0x43, 0x43, 0x5f, 0x50, 0x52, 0x4f, 0x46, 0x49, 0x4c, 0x45, 0x00];
    let adobe: [u8; 5] = [0x41, 0x64, 0x6f, 0x62, 0x65];
    assert(jfif@ =~= jfif_tag());
    assert(jfxx@ =~= jfxx_tag());
    assert(icc@ =~= icc_tag());
    assert(adobe@ =~= adobe_tag());
    proof {
        assert forall|prefix: Seq<u8>| prefix.len() <= end - start implies #[trigger] payload.subrange(
            0,
            prefix.len() as int,
        ) == input@.subrange(start as int, start + prefix.len()) by {
            assert(payload.subrange(0, prefix.len() as int) =~= input@.subrange(start as int, start + prefix.len()));
        }
    }
    let is_app = 0xe0 <= marker && marker <= 0xef;
    let standard_app0 = marker == 0xe0 && (has_prefix_at(input, start, end, jfif.as_slice()) || has_prefix_at(
        input,
        start,
        end,
        jfxx.as_slice(),
    ));
    let color = (marker == 0xe2 && has_prefix_at(input, start, end, icc.as_slice())) || (marker == 0xee
        && has_prefix_at(input, start, end, adobe.as_slice()));
    marker == 0xfe || (is_app && !standard_app0 && !color)
}

fn wrap_count(n: u64) -> (r: u32)
    ensures
        r == n % 0x1_0000_0000,
{
    (n % 0x1_0000_0000) as u32
}

/// Rewrites a JPEG without metadata-bearing application segments.
///
/// ICC APP2 and Adobe APP14 colour segments and standard JFIF/JFXX headers are
/// kept. EXIF, XMP, IPTC, comments and unknown APP segments are removed.
/// Entropy-coded data after the start of scan is copied byte for byte.
///
/// The count of dropped segments is kept modulo 2^32, as a `u32` counter
/// wraps.
pub fn sanitized_jpeg_bytes(input: &[u8]) -> (r: Result<(Vec<u8>, u32), TransferError>)
    ensures
        match sanitized_jpeg(input@) {
            Ok((out, removed)) => r matches Ok((v, n)) && v@ == out && n == removed % 0x1_0000_0000,
            Err(e) => r matches Err(x) && x == e,
        },
{
    let len = input.len();
    if len < 2 || input[0] != 0xff || input[1] != 0xd8 || input[len - 2] != 0xff || input[len - 1] != 0xd9 {
        return Err(TransferError::UnsupportedMediaForSanitization);
    }
    let ghost b = input@;
    let mut output: Vec<u8> = Vec::new();
    extend_range(&mut output, input, 0, 2);
    let mut cursor: usize = 2;
    let mut removed: u64 = 0;
    while cursor < len
        invariant
            b == input@,
            len == b.len(),
            2 <= cursor <= len,
            removed as int * 4 <= cursor,
            sanitized_jpeg(b) == (match sanitize_scan(b, cursor as int) {
                Err(e) => Err(e),
                Ok((rest, n)) => Ok::<(Seq<u8>, nat), TransferError>((output@ + rest, (removed + n) as nat)),
            }),
        decreases len - cursor,
    {
        if input[cursor] != 0xff {
            return Err(TransferError::MalformedJpeg);
        }
        let marker_start = cursor;
        proof {
            lemma_skip_fill(b, cursor as int);
        }
        while cursor < len && input[cursor] == 0xff
            invariant
                b == input@,
                len == b.len(),
                marker_start <= cursor <= len,
                skip_fill(b, marker_start as int) == skip_fill(b, cursor as int),
            decreases len - cursor,
        {
            cursor = cursor + 1;
        }
        if cursor >= len {
            return Err(TransferError::MalformedJpeg);
        }
        let marker = input[cursor];
        cursor = cursor + 1;
        if marker == 0xda {
            extend_range(&mut output, input, marker_start, len);
            assert(output@ =~= output@ + Seq::<u8>::empty());
            return Ok((output, wrap_count(removed)));
        }
        if marker == 0xd9 {
            extend_range(&mut output, input, marker_start, cursor);
            return Ok((output, wrap_count(removed)));
        }
        if marker == 0x01 || (0xd0 <= marker && marker <= 0xd7) {
            let ghost before = output@;
            extend_range(&mut output, input, marker_start, cursor);
            proof {
                match sanitize_scan(b, cursor as int) {
                    Err(e) => {},
                    Ok((rest, n)) => {
                        assert(before + (b.subrange(marker_start as int, cursor as int) + rest) =~= output@ + rest);
                    },
                }
            }
            continue;
        }
        let segment_length = match read_be_u16(input, cursor) {
            Some(v) => v as usize,
            None => return Err(TransferError::MalformedJpeg),
        };
        if segment_length < 2 || segment_length > len - cursor {
            return Err(TransferError::MalformedJpeg);
        }
        let segment_end = cursor + segment_length;
        let strip = segment_is_stripped(input, marker, cursor + 2, segment_end);
        if strip {
            removed = removed + 1;
        } else {
            let ghost before = output@;
            extend_range(&mut output, input, marker_start, segment_end);
            proof {
                match sanitize_scan(b, segment_end as int) {
                    Err(e) => {},
                    Ok((rest, n)) => {
                        assert(before + (b.subrange(marker_start as int, segment_end as int) + rest) =~= output@ + rest);
                    },
                }
            }
        }
        cursor = segment_end;
    }
    Err(TransferError::MalformedJpeg)
}

// ---------------------------------------------------------------------------
// Sanitizing twice.

/// Where the fill bytes end is decided by the bytes read alone.
proof fn lemma_skip_fill_same(b: Seq<u8>, c: int, o: Seq<u8>, p: int, k: int)
    requires
        0 <= c,
        0 <= p,
        c + k <= b.len(),
        p + k <= o.len(),
        forall|j: int| 0 <= j < k ==> #[trigger] o[p + j] == b[c + j],
        c <= skip_fill(b, c) < c + k,
    ensures
        skip_fill(o, p) - p == skip_fill(b, c) - c,
    decreases k,
{
    lemma_skip_fill(b, c);
    if b[c] == 0xff {
        assert(o[p + 0] == b[c + 0]);
        assert forall|j: int| 0 <= j < k - 1 implies #[trigger] o[(p + 1) + j] == b[(c + 1) + j] by {
            assert(o[p + (j + 1)] == b[c + (j + 1)]);
        }
        lemma_skip_fill_same(b, c + 1, o, p + 1, k - 1);
    } else {
        assert(o[p + 0] == b[c + 0]);
    }
}

/// Scanning what a scan kept, wherever it stands, keeps all of it and drops
/// nothing.
proof fn lemma_rescan(b: Seq<u8>, c: int, o: Seq<u8>, p: int)
    requires
        sanitize_scan(b, c) is Ok,
        0 <= p <= o.len(),
        o.subrange(p, o.len() as int) == sanitize_scan(b, c)->Ok_0.0,
    ensures
        sanitize_scan(o, p) == Ok::<(Seq<u8>, nat), TransferError>((sanitize_scan(b, c)->Ok_0.0, 0)),
    decreases b.len() - c,
{
    let rest = sanitize_scan(b, c)->Ok_0.0;
    let m = skip_fill(b, c);
    lemma_skip_fill(b, c);
    let marker = b[m];
    let after = m + 1;
    // The bytes of `o` from `p` on are those of `rest`.
    assert forall|j: int| 0 <= j < o.len() - p implies #[trigger] o[p + j] == rest[j] by {
        assert(o.subrange(p, o.len() as int)[j] == o[p + j]);
    }
    assert(c < m < b.len());
    if marker == 0xda {
        assert(rest == b.subrange(c, b.len() as int));
        assert forall|j: int| 0 <= j < after - c implies #[trigger] o[p + j] == b[c + j] by {
            assert(rest[j] == b[c + j]);
        }
        lemma_skip_fill_same(b, c, o, p, after - c);
        assert(o[p + 0] == b[c + 0]);
        assert(o[p + (m - c)] == b[c + (m - c)]);
    } else if marker == 0xd9 {
        assert(rest == b.subrange(c, after));
        assert forall|j: int| 0 <= j < after - c implies #[trigger] o[p + j] == b[c + j] by {
            assert(rest[j] == b[c + j]);
        }
        lemma_skip_fill_same(b, c, o, p, after - c);
        assert(o[p + 0] == b[c + 0]);
        assert(o[p + (m - c)] == b[c + (m - c)]);
        assert(o.subrange(p, p + (after - c)) =~= rest);
    } else if marker == 0x01 || (0xd0 <= marker <= 0xd7) {
        let rest2 = sanitize_scan(b, after)->Ok_0.0;
        assert(rest == b.subrange(c, after) + rest2);
        assert forall|j: int| 0 <= j < after - c implies #[trigger] o[p + j] == b[c + j] by {
            assert(rest[j] == b[c + j]);
        }
        lemma_skip_fill_same(b, c, o, p, after - c);
        assert(o[p + 0] == b[c + 0]);
        assert(o[p + (m - c)] == b[c + (m - c)]);
        let q = p + (after - c);
        assert forall|j: int| 0 <= j < rest2.len() implies #[trigger] o.subrange(q, o.len() as int)[j] == rest2[j] by {
            assert(o[p + (after - c + j)] == rest[after - c + j]);
        }
        assert(o.subrange(q, o.len() as int) =~= rest2);
        lemma_rescan(b, after, o, q);
        assert(o.subrange(p, q) =~= b.subrange(c, after));
    } else {
        let end = after + be16(b, after);
        let strip = strips_segment(marker, b.subrange(after + 2, end));
        let rest2 = sanitize_scan(b, end)->Ok_0.0;
        if strip {
            assert(rest == rest2);
            lemma_rescan(b, end, o, p);
        } else {
            assert(rest == b.subrange(c, end) + rest2);
            assert forall|j: int| 0 <= j < end - c implies #[trigger] o[p + j] == b[c + j] by {
                assert(rest[j] == b[c + j]);
            }
            lemma_skip_fill_same(b, c, o, p, end - c);
            assert(o[p + 0] == b[c + 0]);
            assert(o[p + (m - c)] == b[c + (m - c)]);
            let ao = p + (after - c);
            assert(o[p + (after - c)] == b[c + (after - c)]);
            assert(o[p + (after - c + 1)] == b[c + (after - c + 1)]);
            assert(be16(o, ao) == be16(b, after));
            let eo = ao + be16(o, ao);
            assert(o.subrange(ao + 2, eo) =~= b.subrange(after + 2, end)) by {
                assert forall|j: int| 0 <= j < end - (after + 2) implies #[trigger] o.subrange(ao + 2, eo)[j]
                    == b.subrange(after + 2, end)[j] by {
                    assert(o[p + (after + 2 - c + j)] == b[c + (after + 2 - c + j)]);
                }
            }
            assert forall|j: int| 0 <= j < rest2.len() implies #[trigger] o.subrange(eo, o.len() as int)[j]
                == rest2[j] by {
                assert(o[p + (end - c + j)] == rest[end - c + j]);
            }
            assert(o.subrange(eo, o.len() as int) =~= rest2);
            lemma_rescan(b, end, o, eo);
            assert(o.subrange(p, eo) =~= b.subrange(c, end));
        }
    }
}

/// What a scan keeps ends as the stream does, with an end-of-image marker.
proof fn lemma_scan_ends_with_eoi(b: Seq<u8>, c: int)
    requires
        sanitize_scan(b, c) is Ok,
        b.len() >= 2,
        b[b.len() - 2] == 0xff,
        b[b.len() - 1] == 0xd9,
    ensures
        ({
            let rest = sanitize_scan(b, c)->Ok_0.0;
            rest.len() >= 2 && rest[rest.len() - 2] == 0xff && rest[rest.len() - 1] == 0xd9
        }),
    decreases b.len() - c,
{
    let m = skip_fill(b, c);
    lemma_skip_fill(b, c);
    let marker = b[m];
    let after = m + 1;
    if marker == 0xda {
        assert(c + 2 <= b.len()) by {
            if c + 2 > b.len() {
                assert(c == b.len() - 1);
                assert(b[c] == 0xd9);
            }
        }
    } else if marker == 0xd9 {
        assert(b[m - 1] == 0xff) by {
            if m - 1 > c {
                assert(c <= m - 1 < skip_fill(b, c));
            }
        }
    } else if marker == 0x01 || (0xd0 <= marker <= 0xd7) {
        lemma_scan_ends_with_eoi(b, after);
    } else {
        let end = after + be16(b, after);
        lemma_scan_ends_with_eoi(b, end);
    }
}

/// Sanitizing a sanitized JPEG gives it back unchanged and drops nothing:
/// no metadata-bearing segment is left in what the sanitizer writes.
pub proof fn law_sanitizing_is_idempotent(b: Seq<u8>)
    requires
        sanitized_jpeg(b) is Ok,
    ensures
        sanitized_jpeg(sanitized_jpeg(b)->Ok_0.0) == Ok::<(Seq<u8>, nat), TransferError>(
            (sanitized_jpeg(b)->Ok_0.0, 0),
        ),
{
    let rest = sanitize_scan(b, 2)->Ok_0.0;
    let out = b.subrange(0, 2) + rest;
    lemma_scan_ends_with_eoi(b, 2);
    assert(out.subrange(2, out.len() as int) =~= rest);
    lemma_rescan(b, 2, out, 2);
    assert(out.subrange(0, 2) =~= b.subrange(0, 2));
    assert(out[out.len() - 2] == rest[rest.len() - 2]);
    assert(out[out.len() - 1] == rest[rest.len() - 1]);
}

} // verus!
