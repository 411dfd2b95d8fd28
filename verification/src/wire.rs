//! The framed wire format spoken between peers over a byte stream.
use vstd::prelude::*;
use vstd::string::*;
use vstd::utf8::{decode_utf8, encode_utf8, encode_utf8_decode_utf8, is_ascii_chars, is_ascii_chars_encode_utf8};
use crate::bytes::{be16, be32, be64, copy_range, extend_range, fits, read_be_u16, read_be_u32, read_be_u64};
use crate::text::push_char;
use crate::transfer::{
    ResumeCheckpoint, TransferError, MAX_CHUNK_BYTES, MAX_WIRE_FRAME_BYTES, all_hexdigits, is_sha256_hex,
    safe_media_token, safe_media_token_text, sha256_hex_text, token_bytes, token_byte,
};

verus! {

pub open spec fn u16_be(v: u16) -> Seq<u8> {
    seq![(v >> 8u16) as u8, v as u8]
}

pub open spec fn u32_be(v: u32) -> Seq<u8> {
    seq![(v >> 24u32) as u8, (v >> 16u32) as u8, (v >> 8u32) as u8, v as u8]
}

pub open spec fn u64_be(v: u64) -> Seq<u8> {
    u32_be((v >> 32u64) as u32) + u32_be(v as u32)
}

proof fn lemma_be16_at(p: Seq<u8>, c: int, v: u16)
    requires
        0 <= c,
        c + 2 <= p.len(),
        p.subrange(c, c + 2) == u16_be(v),
    ensures
        be16(p, c) == v,
{
    assert(p[c] == u16_be(v)[0] && p[c + 1] == u16_be(v)[1]) by {
        assert(p.subrange(c, c + 2)[0] == p[c]);
        assert(p.subrange(c, c + 2)[1] == p[c + 1]);
    }
    let hi = (v >> 8u16) as u8;
    let lo = v as u8;
    assert(hi as u16 * 256 + lo as u16 == v) by (bit_vector)
        requires
            hi == (v >> 8u16) as u8,
            lo == v as u8,
    ;
}

proof fn lemma_be32_at(p: Seq<u8>, c: int, v: u32)
    requires
        0 <= c,
        c + 4 <= p.len(),
        p.subrange(c, c + 4) == u32_be(v),
    ensures
        be32(p, c) == v,
{
    let s = p.subrange(c, c + 4);
    assert(p[c] == s[0] && p[c + 1] == s[1] && p[c + 2] == s[2] && p[c + 3] == s[3]);
    let b0 = (v >> 24u32) as u8;
    let b1 = (v >> 16u32) as u8;
    let b2 = (v >> 8u32) as u8;
    let b3 = v as u8;
    assert(b0 as u32 * 0x100_0000 + b1 as u32 * 0x1_0000 + b2 as u32 * 0x100 + b3 as u32 == v) by (bit_vector)
        requires
            b0 == (v >> 24u32) as u8,
            b1 == (v >> 16u32) as u8,
            b2 == (v >> 8u32) as u8,
            b3 == v as u8,
    ;
}

proof fn lemma_be64_at(p: Seq<u8>, c: int, v: u64)
    requires
        0 <= c,
        c + 8 <= p.len(),
        p.subrange(c, c + 8) == u64_be(v),
    ensures
        be64(p, c) == v,
{
    let hi = (v >> 32u64) as u32;
    let lo = v as u32;
    assert(p.subrange(c, c + 4) =~= u32_be(hi)) by {
        assert forall|k: int| 0 <= k < 4 implies p.subrange(c, c + 4)[k] == u32_be(hi)[k] by {
            assert(p.subrange(c, c + 4)[k] == p.subrange(c, c + 8)[k]);
        }
    }
    assert(p.subrange(c + 4, c + 8) =~= u32_be(lo)) by {
        assert forall|k: int| 0 <= k < 4 implies p.subrange(c + 4, c + 8)[k] == u32_be(lo)[k] by {
            assert(p.subrange(c + 4, c + 8)[k] == p.subrange(c, c + 8)[k + 4]);
        }
    }
    lemma_be32_at(p, c, hi);
    lemma_be32_at(p, c + 4, lo);
    assert(hi as u64 * 0x1_0000_0000 + lo as u64 == v) by (bit_vector)
        requires
            hi == (v >> 32u64) as u32,
            lo == v as u32,
    ;
}

/// Bytes read as the characters of the same code points.
pub open spec fn ascii_text(b: Seq<u8>) -> Seq<char> {
    b.map_values(|x: u8| x as char)
}

proof fn lemma_ascii_text_round_trip(s: Seq<char>)
    requires
        forall|i: int| 0 <= i < encode_utf8(s).len() ==> #[trigger] encode_utf8(s)[i] < 0x80,
    ensures
        ascii_text(encode_utf8(s)) == s,
{
    let b = encode_utf8(s);
    let t = ascii_text(b);
    assert(is_ascii_chars(t)) by {
        assert forall|i: int| 0 <= i < t.len() implies '\0' <= #[trigger] t[i] <= '\u{7f}' by {
            assert(b[i] < 0x80);
        }
    }
    is_ascii_chars_encode_utf8(t);
    assert(encode_utf8(t) =~= b) by {
        assert forall|i: int| 0 <= i < b.len() implies encode_utf8(t)[i] == b[i] by {
            assert(t[i] as u8 == encode_utf8(t)[i]);
        }
    }
    encode_utf8_decode_utf8(t);
    encode_utf8_decode_utf8(s);
}

#[derive(Debug, Clone, PartialEq, Eq)]
pub struct EncryptedChunk {
    pub transfer_id: String,
    pub offset: u64,
    pub plaintext_bytes: u32,
    pub nonce: [u8; 12],
    pub ciphertext: Vec<u8>,
}

#[derive(Debug, Clone, Copy, PartialEq, Eq, Structural)]
pub enum TransferCancelReason {
    User,
    Timeout,
    PeerDisconnected,
}

#[derive(Debug, Clone, PartialEq, Eq)]
pub enum PeerWireMessage {
    EncryptedChunk(EncryptedChunk),
    ResumeCheckpoint(ResumeCheckpoint),
    DurableAck { transfer_id: String, persisted_bytes: u64 },
    Cancel { transfer_id: String, reason: TransferCancelReason },
}

/// A wire message as plain values.
pub enum WireView {
    Chunk { transfer_id: Seq<char>, offset: u64, plaintext_bytes: u32, nonce: Seq<u8>, ciphertext: Seq<u8> },
    Checkpoint { transfer_id: Seq<char>, persisted_bytes: u64, prefix_sha256: Seq<char> },
    Ack { transfer_id: Seq<char>, persisted_bytes: u64 },
    Cancel { transfer_id: Seq<char>, reason: TransferCancelReason },
}

impl View for PeerWireMessage {
    type V = WireView;

    open spec fn view(&self) -> WireView {
        match self {
            PeerWireMessage::EncryptedChunk(c) => WireView::Chunk {
                transfer_id: c.transfer_id@,
                offset: c.offset,
                plaintext_bytes: c.plaintext_bytes,
                nonce: c.nonce@,
                ciphertext: c.ciphertext@,
            },
            PeerWireMessage::ResumeCheckpoint(c) => WireView::Checkpoint {
                transfer_id: c.transfer_id@,
                persisted_bytes: c.persisted_bytes,
                prefix_sha256: c.prefix_sha256@,
            },
            PeerWireMessage::DurableAck { transfer_id, persisted_bytes } => WireView::Ack {
                transfer_id: transfer_id@,
                persisted_bytes: *persisted_bytes,
            },
            PeerWireMessage::Cancel { transfer_id, reason } => WireView::Cancel {
                transfer_id: transfer_id@,
                reason: *reason,
            },
        }
    }
}

pub open spec fn wire_magic() -> Seq<u8> {
    seq![0x55u8, 0x46, 0x43, 0x31]
}

pub open spec fn reason_code(r: TransferCancelReason) -> u8 {
    match r {
        TransferCancelReason::User => 1,
        TransferCancelReason::Timeout => 2,
        TransferCancelReason::PeerDisconnected => 3,
    }
}

pub open spec fn wire_kind(m: WireView) -> u8 {
    match m {
        WireView::Chunk { .. } => 1,
        WireView::Checkpoint { .. } => 2,
        WireView::Ack { .. } => 3,
        WireView::Cancel { .. } => 4,
    }
}

/// A length-prefixed string field.
pub open spec fn wire_string(s: Seq<char>) -> Seq<u8> {
    u16_be(encode_utf8(s).len() as u16) + encode_utf8(s)
}

/// The fields a message must satisfy before it is put on the wire.
pub open spec fn wire_valid(m: WireView) -> bool {
    match m {
        WireView::Chunk { transfer_id, ciphertext, .. } => safe_media_token_text(transfer_id) && ciphertext.len()
            <= MAX_CHUNK_BYTES + 16,
        WireView::Checkpoint { transfer_id, prefix_sha256, .. } => safe_media_token_text(transfer_id)
            && sha256_hex_text(prefix_sha256),
        WireView::Ack { transfer_id, .. } => safe_media_token_text(transfer_id),
        WireView::Cancel { transfer_id, .. } => safe_media_token_text(transfer_id),
    }
}

pub open spec fn wire_payload(m: WireView) -> Seq<u8> {
    match m {
        WireView::Chunk { transfer_id, offset, plaintext_bytes, nonce, ciphertext } => wire_string(transfer_id)
            + u64_be(offset) + u32_be(plaintext_bytes) + nonce + u32_be(ciphertext.len() as u32) + ciphertext,
        WireView::Checkpoint { transfer_id, persisted_bytes, prefix_sha256 } => wire_string(transfer_id) + u64_be(
            persisted_bytes,
        ) + encode_utf8(prefix_sha256),
        WireView::Ack { transfer_id, persisted_bytes } => wire_string(transfer_id) + u64_be(persisted_bytes),
        WireView::Cancel { transfer_id, reason } => wire_string(transfer_id) + seq![reason_code(reason)],
    }
}

/// The frame that carries a message: magic, kind, payload length, payload.
pub open spec fn wire_frame(m: WireView) -> Result<Seq<u8>, TransferError> {
    if !wire_valid(m) {
        Err(TransferError::InvalidWireMessage)
    } else if wire_payload(m).len() > MAX_WIRE_FRAME_BYTES {
        Err(TransferError::WireFrameTooLarge)
    } else {
        Ok(wire_magic() + seq![wire_kind(m)] + u32_be(wire_payload(m).len() as u32) + wire_payload(m))
    }
}

/// A length-prefixed identifier at `c`, and where it ends.
pub open spec fn decode_wire_string(p: Seq<u8>, c: int) -> Option<(Seq<char>, int)> {
    if !fits(p.len() as int, c, 2) {
        None
    } else {
        let n = be16(p, c);
        if !fits(p.len() as int, c + 2, n) || !token_bytes(p.subrange(c + 2, c + 2 + n), false) {
            None
        } else {
            Some((ascii_text(p.subrange(c + 2, c + 2 + n)), c + 2 + n))
        }
    }
}

pub open spec fn reason_of(code: u8) -> Option<TransferCancelReason> {
    if code == 1 {
        Some(TransferCancelReason::User)
    } else if code == 2 {
        Some(TransferCancelReason::Timeout)
    } else if code == 3 {
        Some(TransferCancelReason::PeerDisconnected)
    } else {
        None
    }
}

/// The message body after the identifier, for each kind, and where it ends.
pub open spec fn decode_wire_body(kind: u8, p: Seq<u8>, tid: Seq<char>, c: int) -> Option<(WireView, int)> {
    let len = p.len() as int;
    if kind == 1 {
        if !fits(len, c, 28) {
            None
        } else {
            let plaintext_bytes = be32(p, c + 8);
            let ciphertext_length = be32(p, c + 24);
            if ciphertext_length != plaintext_bytes + 16 || ciphertext_length > MAX_CHUNK_BYTES + 16 || !fits(
                len,
                c + 28,
                ciphertext_length,
            ) {
                None
            } else {
                Some(
                    (
                        WireView::Chunk {
                            transfer_id: tid,
                            offset: be64(p, c) as u64,
                            plaintext_bytes: plaintext_bytes as u32,
                            nonce: p.subrange(c + 12, c + 24),
                            ciphertext: p.subrange(c + 28, c + 28 + ciphertext_length),
                        },
                        c + 28 + ciphertext_length,
                    ),
                )
            }
        }
    } else if kind == 2 {
        if !fits(len, c, 72) || !all_hexdigits(p.subrange(c + 8, c + 72)) {
            None
        } else {
            Some(
                (
                    WireView::Checkpoint {
                        transfer_id: tid,
                        persisted_bytes: be64(p, c) as u64,
                        prefix_sha256: ascii_text(p.subrange(c + 8, c + 72)),
                    },
                    c + 72,
                ),
            )
        }
    } else if kind == 3 {
        if !fits(len, c, 8) {
            None
        } else {
            Some((WireView::Ack { transfer_id: tid, persisted_bytes: be64(p, c) as u64 }, c + 8))
        }
    } else if kind == 4 {
        if !fits(len, c, 1) {
            None
        } else {
            match reason_of(p[c]) {
                Some(r) => Some((WireView::Cancel { transfer_id: tid, reason: r }, c + 1)),
                None => None,
            }
        }
    } else {
        None
    }
}

/// The message a payload of the given kind carries, if it is well formed and
/// nothing follows it.
pub open spec fn decode_wire_payload(kind: u8, p: Seq<u8>) -> Option<WireView> {
    match decode_wire_string(p, 0) {
        None => None,
        Some((tid, c)) => match decode_wire_body(kind, p, tid, c) {
            Some((m, end)) => if end == p.len() {
                Some(m)
            } else {
                None
            },
            None => None,
        },
    }
}

/// The payload length a frame header announces, or why the header is refused.
pub open spec fn wire_header(h: Seq<u8>) -> Result<int, TransferError> {
    if h.subrange(0, 4) != wire_magic() {
        Err(TransferError::InvalidWireMessage)
    } else if be32(h, 5) > MAX_WIRE_FRAME_BYTES {
        Err(TransferError::WireFrameTooLarge)
    } else {
        Ok(be32(h, 5))
    }
}

/// What reading a whole frame (header and announced payload) yields.
pub open spec fn wire_read(f: Seq<u8>) -> Result<WireView, TransferError> {
    match wire_header(f.subrange(0, 9)) {
        Err(e) => Err(e),
        Ok(_) => match decode_wire_payload(f[4], f.subrange(9, f.len() as int)) {
            Some(m) => Ok(m),
            None => Err(TransferError::InvalidWireMessage),
        },
    }
}

// ---------------------------------------------------------------------------
// Encoding.

fn push_u16_be(out: &mut Vec<u8>, v: u16)
    ensures
        final(out)@ == old(out)@ + u16_be(v),
{
    out.push((v >> 8u16) as u8);
    out.push(v as u8);
    assert(out@ =~= old(out)@ + u16_be(v));
}

fn push_u32_be(out: &mut Vec<u8>, v: u32)
    ensures
        final(out)@ == old(out)@ + u32_be(v),
{
    out.push((v >> 24u32) as u8);
    out.push((v >> 16u32) as u8);
    out.push((v >> 8u32) as u8);
    out.push(v as u8);
    assert(out@ =~= old(out)@ + u32_be(v));
}

fn push_u64_be(out: &mut Vec<u8>, v: u64)
    ensures
        final(out)@ == old(out)@ + u64_be(v),
{
    let ghost start = out@;
    push_u32_be(out, (v >> 32u64) as u32);
    push_u32_be(out, v as u32);
    assert(out@ =~= start + u64_be(v));
}

/// Appends a length-prefixed identifier.
fn encode_wire_string(out: &mut Vec<u8>, value: &str)
    requires
        encode_utf8(value@).len() <= 0xffff,
    ensures
        final(out)@ == old(out)@ + wire_string(value@),
{
    let bytes = value.as_bytes();
    let ghost start = out@;
    push_u16_be(out, bytes.len() as u16);
    extend_range(out, bytes, 0, bytes.len());
    assert(bytes@.subrange(0, bytes@.len() as int) =~= bytes@);
    assert(out@ =~= start + wire_string(value@));
}

fn encode_payload(message: &PeerWireMessage) -> (r: Option<Vec<u8>>)
    ensures
        r matches Some(p) ==> wire_valid(message@) && p@ == wire_payload(message@),
        r is None ==> !wire_valid(message@),
{
    match message {
        PeerWireMessage::EncryptedChunk(chunk) => {
            if !safe_media_token(chunk.transfer_id.as_str()) || chunk.ciphertext.len() > MAX_CHUNK_BYTES as usize
                + 16 {
                return None;
            }
            let mut payload: Vec<u8> = Vec::new();
            encode_wire_string(&mut payload, chunk.transfer_id.as_str());
            push_u64_be(&mut payload, chunk.offset);
            push_u32_be(&mut payload, chunk.plaintext_bytes);
            let nonce: &[u8] = chunk.nonce.as_slice();
            extend_range(&mut payload, nonce, 0, 12);
            assert(nonce@.subrange(0, 12) =~= chunk.nonce@);
            push_u32_be(&mut payload, chunk.ciphertext.len() as u32);
            extend_range(&mut payload, chunk.ciphertext.as_slice(), 0, chunk.ciphertext.len());
            assert(chunk.ciphertext@.subrange(0, chunk.ciphertext@.len() as int) =~= chunk.ciphertext@);
            Some(payload)
        },
        PeerWireMessage::ResumeCheckpoint(checkpoint) => {
            if !safe_media_token(checkpoint.transfer_id.as_str()) || !is_sha256_hex(checkpoint.prefix_sha256.as_str()) {
                return None;
            }
            let mut payload: Vec<u8> = Vec::new();
            encode_wire_string(&mut payload, checkpoint.transfer_id.as_str());
            push_u64_be(&mut payload, checkpoint.persisted_bytes);
            let hash = checkpoint.prefix_sha256.as_str().as_bytes();
            extend_range(&mut payload, hash, 0, hash.len());
            assert(hash@.subrange(0, hash@.len() as int) =~= hash@);
            Some(payload)
        },
        PeerWireMessage::DurableAck { transfer_id, persisted_bytes } => {
            if !safe_media_token(transfer_id.as_str()) {
                return None;
            }
            let mut payload: Vec<u8> = Vec::new();
            encode_wire_string(&mut payload, transfer_id.as_str());
            push_u64_be(&mut payload, *persisted_bytes);
            Some(payload)
        },
        PeerWireMessage::Cancel { transfer_id, reason } => {
            if !safe_media_token(transfer_id.as_str()) {
                return None;
            }
            let mut payload: Vec<u8> = Vec::new();
            encode_wire_string(&mut payload, transfer_id.as_str());
            let code: u8 = match reason {
                TransferCancelReason::User => 1,
                TransferCancelReason::Timeout => 2,
                TransferCancelReason::PeerDisconnected => 3,
            };
            payload.push(code);
            Some(payload)
        },
    }
}

/// The frame that carries `message` on the wire.
pub fn write_wire_message(message: &PeerWireMessage) -> (r: Result<Vec<u8>, TransferError>)
    ensures
        match wire_frame(message@) {
            Ok(f) => r matches Ok(v) && v@ == f,
            Err(e) => r == Err::<Vec<u8>, TransferError>(e),
        },
{
    let payload = match encode_payload(message) {
        Some(p) => p,
        None => return Err(TransferError::InvalidWireMessage),
    };
    if payload.len() > MAX_WIRE_FRAME_BYTES {
        return Err(TransferError::WireFrameTooLarge);
    }
    let kind: u8 = match message {
        PeerWireMessage::EncryptedChunk(_) => 1,
        PeerWireMessage::ResumeCheckpoint(_) => 2,
        PeerWireMessage::DurableAck { .. } => 3,
        PeerWireMessage::Cancel { .. } => 4,
    };
    let mut frame: Vec<u8> = Vec::new();
    frame.push(0x55);
    frame.push(0x46);
    frame.push(0x43);
    frame.push(0x31);
    frame.push(kind);
    push_u32_be(&mut frame, payload.len() as u32);
    extend_range(&mut frame, payload.as_slice(), 0, payload.len());
    assert(payload@.subrange(0, payload@.len() as int) =~= payload@);
    assert(frame@ =~= wire_magic() + seq![wire_kind(message@)] + u32_be(payload@.len() as u32) + payload@);
    Ok(frame)
}

// ---------------------------------------------------------------------------
// Decoding.

fn is_token_byte(b: u8) -> (r: bool)
    ensures
        r == token_byte(b, false),
{
    (0x30 <= b && b <= 0x39) || (0x41 <= b && b <= 0x5a) || (0x61 <= b && b <= 0x7a) || b == 0x2d || b == 0x5f
}

/// The characters of `p[start..end]`, each byte read as one character.
fn ascii_string(p: &[u8], start: usize, end: usize) -> (s: String)
    requires
        start <= end <= p@.len(),
    ensures
        s@ == ascii_text(p@.subrange(start as int, end as int)),
{
    let mut s = String::new();
    let mut i = start;
    while i < end
        invariant
            start <= i <= end <= p@.len(),
            s@ == ascii_text(p@.subrange(start as int, i as int)),
        decreases end - i,
    {
        let ghost before = s@;
        push_char(&mut s, p[i] as char);
        i = i + 1;
        assert(s@ =~= ascii_text(p@.subrange(start as int, i as int))) by {
            assert(p@.subrange(start as int, i as int) =~= p@.subrange(start as int, i - 1).push(p@[i - 1]));
        }
    }
    s
}

fn take_string(p: &[u8], c: usize) -> (r: Option<(String, usize)>)
    ensures
        match decode_wire_string(p@, c as int) {
            None => r is None,
            Some((t, e)) => r matches Some((s, e2)) && s@ == t && e2 == e,
        },
{
    let n = match read_be_u16(p, c) {
        None => return None,
        Some(n) => n as usize,
    };
    let len = p.len();
    assert(c + 2 <= len);
    let start = c + 2;
    if n > p.len() - start {
        return None;
    }
    let end = start + n;
    let ghost sub = p@.subrange(start as int, end as int);
    if n == 0 || n > 128 {
        return None;
    }
    let mut i = start;
    while i < end
        invariant
            start <= i <= end <= p@.len(),
            sub == p@.subrange(start as int, end as int),
            start == c + 2,
            end == start + n,
            n as int == be16(p@, c as int),
            forall|k: int| start <= k < i ==> token_byte(#[trigger] p@[k], false),
        decreases end - i,
    {
        if !is_token_byte(p[i]) {
            assert(sub[i - start] == p@[i as int]);
            return None;
        }
        i = i + 1;
    }
    assert forall|k: int| 0 <= k < sub.len() implies token_byte(#[trigger] sub[k], false) by {
        assert(sub[k] == p@[start + k]);
    }
    Some((ascii_string(p, start, end), end))
}

fn nonce_at(p: &[u8], c: usize) -> (n: [u8; 12])
    requires
        c + 12 <= p@.len(),
    ensures
        n@ == p@.subrange(c as int, c + 12),
{
    let n = [p[c], p[c + 1], p[c + 2], p[c + 3], p[c + 4], p[c + 5], p[c + 6], p[c + 7], p[c + 8], p[c + 9], p[c
        + 10], p[c + 11]];
    assert(n@ =~= p@.subrange(c as int, c + 12));
    n
}

fn all_hex_in(p: &[u8], start: usize, end: usize) -> (r: bool)
    requires
        start <= end <= p@.len(),
    ensures
        r == all_hexdigits(p@.subrange(start as int, end as int)),
{
    let ghost sub = p@.subrange(start as int, end as int);
    let mut i = start;
    while i < end
        invariant
            start <= i <= end <= p@.len(),
            sub == p@.subrange(start as int, end as int),
            forall|k: int| 0 <= k < i - start ==> crate::transfer::ascii_hexdigit(#[trigger] sub[k]),
        decreases end - i,
    {
        let b = p[i];
        assert(sub[i - start] == b);
        if !((0x30 <= b && b <= 0x39) || (0x41 <= b && b <= 0x46) || (0x61 <= b && b <= 0x66)) {
            return false;
        }
        i = i + 1;
    }
    true
}

fn decode_body(kind: u8, p: &[u8], tid: String, c: usize) -> (r: Option<(PeerWireMessage, usize)>)
    requires
        c <= p@.len(),
    ensures
        match decode_wire_body(kind, p@, tid@, c as int) {
            None => r is None,
            Some((m, e)) => r matches Some((x, e2)) && x@ == m && e2 == e,
        },
{
    let len = p.len();
    if kind == 1 {
        if len - c < 28 {
            return None;
        }
        let offset = read_be_u64(p, c).unwrap();
        let plaintext_bytes = read_be_u32(p, c + 8).unwrap();
        let nonce = nonce_at(p, c + 12);
        let ciphertext_length = read_be_u32(p, c + 24).unwrap();
        if ciphertext_length as u64 != plaintext_bytes as u64 + 16 || ciphertext_length > MAX_CHUNK_BYTES + 16
            || ciphertext_length as usize > len - (c + 28) {
            return None;
        }
        let end = c + 28 + ciphertext_length as usize;
        let ciphertext = copy_range(p, c + 28, end);
        Some(
            (
                PeerWireMessage::EncryptedChunk(
                    EncryptedChunk { transfer_id: tid, offset, plaintext_bytes, nonce, ciphertext },
                ),
                end,
            ),
        )
    } else if kind == 2 {
        if len - c < 72 {
            return None;
        }
        let persisted_bytes = read_be_u64(p, c).unwrap();
        if !all_hex_in(p, c + 8, c + 72) {
            return None;
        }
        let prefix_sha256 = ascii_string(p, c + 8, c + 72);
        Some(
            (
                PeerWireMessage::ResumeCheckpoint(
                    ResumeCheckpoint { transfer_id: tid, persisted_bytes, prefix_sha256 },
                ),
                c + 72,
            ),
        )
    } else if kind == 3 {
        if len - c < 8 {
            return None;
        }
        let persisted_bytes = read_be_u64(p, c).unwrap();
        Some((PeerWireMessage::DurableAck { transfer_id: tid, persisted_bytes }, c + 8))
    } else if kind == 4 {
        if len - c < 1 {
            return None;
        }
        let code = p[c];
        let reason = if code == 1 {
            TransferCancelReason::User
        } else if code == 2 {
            TransferCancelReason::Timeout
        } else if code == 3 {
            TransferCancelReason::PeerDisconnected
        } else {
            return None;
        };
        Some((PeerWireMessage::Cancel { transfer_id: tid, reason }, c + 1))
    } else {
        None
    }
}

/// The payload length a nine-byte frame header announces.
pub fn wire_payload_length(header: &[u8]) -> (r: Result<usize, TransferError>)
    requires
        header@.len() == 9,
    ensures
        match wire_header(header@) {
            Ok(n) => r == Ok::<usize, TransferError>(n as usize),
            Err(e) => r == Err::<usize, TransferError>(e),
        },
{
    if !(header[0] == 0x55 && header[1] == 0x46 && header[2] == 0x43 && header[3] == 0x31) {
        assert(header@.subrange(0, 4) != wire_magic()) by {
            if header@.subrange(0, 4) == wire_magic() {
                assert(header@.subrange(0, 4)[0] == header@[0]);
                assert(header@.subrange(0, 4)[1] == header@[1]);
                assert(header@.subrange(0, 4)[2] == header@[2]);
                assert(header@.subrange(0, 4)[3] == header@[3]);
            }
        }
        return Err(TransferError::InvalidWireMessage);
    }
    assert(header@.subrange(0, 4) =~= wire_magic());
    let length = read_be_u32(header, 5).unwrap();
    if length as usize > MAX_WIRE_FRAME_BYTES {
        return Err(TransferError::WireFrameTooLarge);
    }
    Ok(length as usize)
}

/// Decodes one whole frame: the nine-byte header and the payload it announces.
pub fn read_wire_message(frame: &[u8]) -> (r: Result<PeerWireMessage, TransferError>)
    requires
        frame@.len() >= 9,
        wire_header(frame@.subrange(0, 9)) matches Ok(n) ==> frame@.len() == 9 + n,
    ensures
        r matches Ok(m) ==> wire_read(frame@) == Ok::<WireView, TransferError>(m@),
        r matches Err(e) ==> wire_read(frame@) == Err::<WireView, TransferError>(e),
{
    let header = copy_range(frame, 0, 9);
    let _length = wire_payload_length(header.as_slice())?;
    let payload = copy_range(frame, 9, frame.len());
    let kind = frame[4];
    let (tid, c) = match take_string(payload.as_slice(), 0) {
        Some(x) => x,
        None => return Err(TransferError::InvalidWireMessage),
    };
    let (message, end) = match decode_body(kind, payload.as_slice(), tid, c) {
        Some(x) => x,
        None => return Err(TransferError::InvalidWireMessage),
    };
    if end != payload.len() {
        return Err(TransferError::InvalidWireMessage);
    }
    Ok(message)
}

// ---------------------------------------------------------------------------
// What a read gives back of a write.

proof fn lemma_token_ascii(s: Seq<char>)
    requires
        safe_media_token_text(s),
    ensures
        ascii_text(encode_utf8(s)) == s,
        0 < encode_utf8(s).len() <= 128,
{
    assert forall|i: int| 0 <= i < encode_utf8(s).len() implies #[trigger] encode_utf8(s)[i] < 0x80 by {
        assert(token_byte(encode_utf8(s)[i], false));
    }
    lemma_ascii_text_round_trip(s);
}

proof fn lemma_decode_string(s: Seq<char>, rest: Seq<u8>)
    requires
        safe_media_token_text(s),
    ensures
        decode_wire_string(wire_string(s) + rest, 0) == Some((s, wire_string(s).len() as int)),
        wire_string(s).len() == 2 + encode_utf8(s).len(),
{
    let b = encode_utf8(s);
    let n = b.len();
    lemma_token_ascii(s);
    let p = wire_string(s) + rest;
    assert(p.subrange(0, 2) =~= u16_be(n as u16));
    lemma_be16_at(p, 0, n as u16);
    assert(p.subrange(2, 2 + n as int) =~= b);
}

proof fn lemma_chunk_round_trip(transfer_id: Seq<char>, offset: u64, plaintext_bytes: u32, nonce: Seq<u8>, ciphertext: Seq<u8>)
    requires
        wire_valid(WireView::Chunk { transfer_id, offset, plaintext_bytes, nonce, ciphertext }),
        nonce.len() == 12,
        ciphertext.len() == plaintext_bytes + 16,
    ensures
        decode_wire_payload(1, wire_payload(WireView::Chunk { transfer_id, offset, plaintext_bytes, nonce, ciphertext }))
            == Some(WireView::Chunk { transfer_id, offset, plaintext_bytes, nonce, ciphertext }),
{
    let m = WireView::Chunk { transfer_id, offset, plaintext_bytes, nonce, ciphertext };
    let ws = wire_string(transfer_id);
    let cl = ciphertext.len();
    let tail = u64_be(offset) + u32_be(plaintext_bytes) + nonce + u32_be(cl as u32) + ciphertext;
    let p = wire_payload(m);
    assert(p =~= ws + tail);
    lemma_decode_string(transfer_id, tail);
    let c = ws.len() as int;
    assert(p.len() == c + 28 + cl);
    assert(p.subrange(c, c + 8) =~= u64_be(offset));
    lemma_be64_at(p, c, offset);
    assert(p.subrange(c + 8, c + 12) =~= u32_be(plaintext_bytes));
    lemma_be32_at(p, c + 8, plaintext_bytes);
    assert(p.subrange(c + 12, c + 24) =~= nonce);
    assert(p.subrange(c + 24, c + 28) =~= u32_be(cl as u32));
    lemma_be32_at(p, c + 24, cl as u32);
    assert(p.subrange(c + 28, c + 28 + cl) =~= ciphertext);
    assert(be64(p, c) as u64 == offset);
}

proof fn lemma_checkpoint_round_trip(transfer_id: Seq<char>, persisted_bytes: u64, prefix_sha256: Seq<char>)
    requires
        wire_valid(WireView::Checkpoint { transfer_id, persisted_bytes, prefix_sha256 }),
    ensures
        decode_wire_payload(2, wire_payload(WireView::Checkpoint { transfer_id, persisted_bytes, prefix_sha256 }))
            == Some(WireView::Checkpoint { transfer_id, persisted_bytes, prefix_sha256 }),
{
    let m = WireView::Checkpoint { transfer_id, persisted_bytes, prefix_sha256 };
    let ws = wire_string(transfer_id);
    let h = encode_utf8(prefix_sha256);
    let tail = u64_be(persisted_bytes) + h;
    let p = wire_payload(m);
    assert(p =~= ws + tail);
    lemma_decode_string(transfer_id, tail);
    let c = ws.len() as int;
    assert(p.subrange(c, c + 8) =~= u64_be(persisted_bytes));
    lemma_be64_at(p, c, persisted_bytes);
    assert(p.subrange(c + 8, c + 72) =~= h);
    assert forall|i: int| 0 <= i < h.len() implies #[trigger] h[i] < 0x80 by {
        assert(crate::transfer::ascii_hexdigit(h[i]));
    }
    lemma_ascii_text_round_trip(prefix_sha256);
}

proof fn lemma_payload_round_trip(m: WireView)
    requires
        wire_valid(m),
        m matches WireView::Chunk { nonce, ciphertext, plaintext_bytes, .. } ==> nonce.len() == 12
            && ciphertext.len() == plaintext_bytes + 16,
    ensures
        decode_wire_payload(wire_kind(m), wire_payload(m)) == Some(m),
{
    match m {
        WireView::Chunk { transfer_id, offset, plaintext_bytes, nonce, ciphertext } => lemma_chunk_round_trip(
            transfer_id,
            offset,
            plaintext_bytes,
            nonce,
            ciphertext,
        ),
        WireView::Checkpoint { transfer_id, persisted_bytes, prefix_sha256 } => lemma_checkpoint_round_trip(
            transfer_id,
            persisted_bytes,
            prefix_sha256,
        ),
        WireView::Ack { transfer_id, persisted_bytes } => {
            let ws = wire_string(transfer_id);
            let tail = u64_be(persisted_bytes);
            let p = wire_payload(m);
            lemma_decode_string(transfer_id, tail);
            let c = ws.len() as int;
            assert(p.subrange(c, c + 8) =~= u64_be(persisted_bytes));
            lemma_be64_at(p, c, persisted_bytes);
        },
        WireView::Cancel { transfer_id, reason } => {
            let ws = wire_string(transfer_id);
            let tail = seq![reason_code(reason)];
            let p = wire_payload(m);
            lemma_decode_string(transfer_id, tail);
            let c = ws.len() as int;
            assert(p[c] == reason_code(reason));
        },
    }
}

/// Reading back a written frame yields the message that was written: the
/// header announces exactly the payload that follows, and the payload decodes
/// to the same message. (A chunk round-trips when its ciphertext carries the
/// 16-byte authentication tag beyond its plaintext, as every encrypted chunk does.)
pub proof fn law_wire_round_trip(m: WireView)
    requires
        wire_frame(m) is Ok,
        m matches WireView::Chunk { nonce, ciphertext, plaintext_bytes, .. } ==> nonce.len() == 12
            && ciphertext.len() == plaintext_bytes + 16,
    ensures
        wire_header(wire_frame(m)->Ok_0.subrange(0, 9)) == Ok::<int, TransferError>(wire_frame(m)->Ok_0.len() - 9),
        wire_read(wire_frame(m)->Ok_0) == Ok::<WireView, TransferError>(m),
{
    let p = wire_payload(m);
    let f = wire_frame(m)->Ok_0;
    let h = f.subrange(0, 9);
    assert(h.subrange(0, 4) =~= wire_magic());
    assert(h.subrange(5, 9) =~= u32_be(p.len() as u32));
    lemma_be32_at(h, 5, p.len() as u32);
    assert(f[4] == wire_kind(m));
    assert(f.subrange(9, f.len() as int) =~= p);
    lemma_payload_round_trip(m);
}

} // verus!
