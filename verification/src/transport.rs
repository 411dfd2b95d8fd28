//! The chunk exchange over a bulk transport: which bytes the sender seals
//! next, which acknowledgement it waits for, what the receiver accepts and
//! answers, and how a disconnected transfer resumes.
use vstd::prelude::*;
use vstd::string::*;
use vstd::utf8::encode_utf8;
use crate::crypto::{hex_lower, hex_text};
use crate::text::str_eq;
use crate::session::{EncryptedChunkCodec, chunk_aad, chunk_nonce, chacha_sealed_of, decrypt_outcome, range_valid};
use crate::transfer::{
    MAX_CHUNK_BYTES, PROTOCOL_VERSION, ResumeCheckpoint, TransferError, TransferManifest, TransferSession, TransferState, TransportKind,
    eq_ignore_ascii_case, eq_ignore_ascii_case_bytes, is_sha256_hex, manifest_error, resume_checkpoint_error,
    sha256_hex_text,
};
use crate::wire::{EncryptedChunk, PeerWireMessage, TransferCancelReason, WireView};

verus! {

#[derive(Debug, Clone, Copy, PartialEq, Eq, Structural)]
pub enum TransportLifecycleState {
    Transferring,
    AwaitingAck { end_offset: u64 },
    Cancelled { reason: TransferCancelReason },
    Complete,
}

// ---------------------------------------------------------------------------
// Checking a resume checkpoint against the sender's source.

/// Why a checkpoint cannot describe a prefix of the manifest's content.
pub open spec fn checkpoint_shape_error(m: TransferManifest, c: ResumeCheckpoint) -> Option<TransferError> {
    if manifest_error(m) is Some {
        manifest_error(m)
    } else if c.transfer_id@ != m.transfer_id@ || c.persisted_bytes > m.byte_length || !sha256_hex_text(
        c.prefix_sha256@,
    ) {
        Some(TransferError::InvalidResumeCheckpoint)
    } else {
        None
    }
}

/// Checks that a checkpoint names this transfer, lies inside it and carries a
/// well-formed digest.
pub fn check_resume_checkpoint(manifest: &TransferManifest, checkpoint: &ResumeCheckpoint) -> (r: Result<
    (),
    TransferError,
>)
    ensures
        match checkpoint_shape_error(*manifest, *checkpoint) {
            Some(e) => r == Err::<(), TransferError>(e),
            None => r is Ok,
        },
{
    manifest.validate()?;
    if checkpoint.transfer_id != manifest.transfer_id || checkpoint.persisted_bytes > manifest.byte_length
        || !is_sha256_hex(checkpoint.prefix_sha256.as_str()) {
        return Err(TransferError::InvalidResumeCheckpoint);
    }
    Ok(())
}

/// The source file must still have the manifest's length.
pub fn check_source_length(manifest: &TransferManifest, file_length: u64) -> (r: Result<(), TransferError>)
    ensures
        file_length == manifest.byte_length ==> r is Ok,
        file_length != manifest.byte_length ==> r == Err::<(), TransferError>(TransferError::ManifestMismatch),
{
    if file_length != manifest.byte_length {
        return Err(TransferError::ManifestMismatch);
    }
    Ok(())
}

/// The digest of the source's first `persisted_bytes` must be the one the
/// receiver reported, compared as hex text without regard to case.
pub fn check_resume_prefix(checkpoint: &ResumeCheckpoint, prefix_digest: &[u8; 32]) -> (r: Result<(), TransferError>)
    ensures
        eq_ignore_ascii_case_bytes(encode_utf8(hex_text(prefix_digest@)), encode_utf8(checkpoint.prefix_sha256@))
            ==> r is Ok,
        !eq_ignore_ascii_case_bytes(encode_utf8(hex_text(prefix_digest@)), encode_utf8(checkpoint.prefix_sha256@))
            ==> r == Err::<(), TransferError>(TransferError::ResumePrefixMismatch),
{
    let actual = hex_lower(prefix_digest.as_slice());
    if !eq_ignore_ascii_case(actual.as_str(), checkpoint.prefix_sha256.as_str()) {
        return Err(TransferError::ResumePrefixMismatch);
    }
    Ok(())
}

// ---------------------------------------------------------------------------
// The sender.

/// The sender's position in the exchange as plain values.
pub struct SenderView {
    pub transfer_id: Seq<char>,
    pub byte_length: u64,
    pub chunk_bytes: u32,
    pub acknowledged_bytes: u64,
    pub state: TransportLifecycleState,
}

impl SenderView {
    /// Acknowledged bytes never pass the end; a completed exchange has them
    /// all; an awaited acknowledgement lies strictly ahead of what was
    /// acknowledged.
    pub open spec fn consistent(self) -> bool {
        &&& self.acknowledged_bytes <= self.byte_length
        &&& self.state is Complete ==> self.acknowledged_bytes == self.byte_length
        &&& self.state matches TransportLifecycleState::AwaitingAck { end_offset } ==> self.acknowledged_bytes
            < end_offset <= self.byte_length
    }

    /// The length of the chunk that follows the acknowledged prefix.
    pub open spec fn next_length(self) -> int {
        let rest = self.byte_length - self.acknowledged_bytes;
        if rest < self.chunk_bytes {
            rest
        } else {
            self.chunk_bytes as int
        }
    }
}

/// The sender's side of the chunk exchange for one transfer.
pub struct SenderProgress {
    codec: EncryptedChunkCodec,
    manifest: TransferManifest,
    chunk_bytes: u32,
    acknowledged_bytes: u64,
    state: TransportLifecycleState,
}

impl View for SenderProgress {
    type V = SenderView;

    closed spec fn view(&self) -> SenderView {
        SenderView {
            transfer_id: self.manifest.transfer_id@,
            byte_length: self.manifest.byte_length,
            chunk_bytes: self.chunk_bytes,
            acknowledged_bytes: self.acknowledged_bytes,
            state: self.state,
        }
    }
}

/// Why a sender cannot start, in the order the checks are made; `source` is
/// the outcome of checking the source file against the manifest.
pub open spec fn sender_open_error(
    session: TransferSession,
    codec_transfer_id: Seq<char>,
    codec_total: u64,
    source: Result<(), TransferError>,
) -> Option<TransferError> {
    if !(session.state is Transferring) || session.negotiated_transport == Some(TransportKind::BleControl) {
        Some(TransferError::InvalidState)
    } else if codec_transfer_id != session.manifest.transfer_id@ || codec_total != session.manifest.byte_length {
        Some(TransferError::ManifestMismatch)
    } else if source is Err {
        Some(source->Err_0)
    } else if session.negotiated_chunk_bytes is None {
        Some(TransferError::InvalidState)
    } else {
        None
    }
}

/// The wire view of the chunk a codec seals from `plaintext` at `offset`.
pub open spec fn sealed_chunk(
    key: Seq<u8>,
    prefix: Seq<u8>,
    transfer_id: Seq<char>,
    total: u64,
    offset: u64,
    plaintext: Seq<u8>,
) -> WireView {
    let nonce = chunk_nonce(key, prefix, transfer_id, offset, plaintext);
    WireView::Chunk {
        transfer_id,
        offset,
        plaintext_bytes: plaintext.len() as u32,
        nonce,
        ciphertext: chacha_sealed_of(key, nonce, chunk_aad(transfer_id, total, offset, plaintext.len() as u32), plaintext),
    }
}

/// `m` is the chunk sealed from `plaintext` at `offset`, its ciphertext one
/// tag longer than the plaintext.
pub open spec fn is_sealed_chunk(
    key: Seq<u8>,
    prefix: Seq<u8>,
    transfer_id: Seq<char>,
    total: u64,
    offset: u64,
    plaintext: Seq<u8>,
    m: WireView,
) -> bool {
    &&& m == sealed_chunk(key, prefix, transfer_id, total, offset, plaintext)
    &&& m matches WireView::Chunk { ciphertext, .. } && ciphertext.len() == plaintext.len() + 16
}

/// Why an acknowledgement is refused.
pub open spec fn ack_error(v: SenderView, m: WireView) -> Option<TransferError> {
    match v.state {
        TransportLifecycleState::AwaitingAck { end_offset } => match m {
            WireView::Ack { transfer_id, persisted_bytes } => if transfer_id != v.transfer_id || persisted_bytes
                != end_offset {
                Some(TransferError::InvalidAcknowledgement)
            } else {
                None
            },
            _ => Some(TransferError::InvalidWireMessage),
        },
        _ => Some(TransferError::InvalidTransportLifecycle),
    }
}

/// The state after `acknowledged` of `total` bytes are known to be held.
pub open spec fn state_after(acknowledged: u64, total: u64) -> TransportLifecycleState {
    if acknowledged == total {
        TransportLifecycleState::Complete
    } else {
        TransportLifecycleState::Transferring
    }
}

impl SenderProgress {
    pub closed spec fn codec(&self) -> EncryptedChunkCodec {
        self.codec
    }

    pub closed spec fn spec_manifest(&self) -> TransferManifest {
        self.manifest
    }

    pub closed spec fn wf(&self) -> bool {
        &&& self.codec.wf()
        &&& self.codec.spec_transfer_id() == self.manifest.transfer_id@
        &&& self.codec.spec_total() == self.manifest.byte_length
        &&& self@.consistent()
    }

    /// Starts sending once the session transfers over a bulk transport and
    /// the codec belongs to its manifest.
    pub fn open(session: &TransferSession, codec: EncryptedChunkCodec, source: Result<(), TransferError>) -> (r: Result<
        Self,
        TransferError,
    >)
        requires
            codec.wf(),
        ensures
            match sender_open_error(*session, codec.spec_transfer_id(), codec.spec_total(), source) {
                Some(e) => r matches Err(x) && x == e,
                None => r matches Ok(s) && s.wf() && s.codec() == codec && s.spec_manifest() == session.manifest
                    && s@ == (SenderView {
                    transfer_id: session.manifest.transfer_id@,
                    byte_length: session.manifest.byte_length,
                    chunk_bytes: session.negotiated_chunk_bytes->0,
                    acknowledged_bytes: 0,
                    state: TransportLifecycleState::Transferring,
                }),
            },
    {
        if !matches!(session.state, TransferState::Transferring { .. }) || session.negotiated_transport == Some(
            TransportKind::BleControl,
        ) {
            return Err(TransferError::InvalidState);
        }
        if !str_eq(codec.transfer_id(), session.manifest.transfer_id.as_str()) || codec.total_plaintext_bytes()
            != session.manifest.byte_length {
            return Err(TransferError::ManifestMismatch);
        }
        source?;
        let chunk_bytes = match session.negotiated_chunk_bytes {
            Some(c) => c,
            None => return Err(TransferError::InvalidState),
        };
        Ok(SenderProgress {
            codec,
            manifest: session.manifest.duplicate(),
            chunk_bytes,
            acknowledged_bytes: 0,
            state: TransportLifecycleState::Transferring,
        })
    }

    pub fn state(&self) -> (r: TransportLifecycleState)
        ensures
            r == self@.state,
    {
        self.state
    }

    pub fn acknowledged_bytes(&self) -> (r: u64)
        ensures
            r == self@.acknowledged_bytes,
    {
        self.acknowledged_bytes
    }

    pub fn manifest(&self) -> (r: &TransferManifest)
        ensures
            *r == self.spec_manifest(),
    {
        &self.manifest
    }

    /// The range of the source to read next: `None` once everything is
    /// acknowledged (the exchange is then complete); refused while an
    /// acknowledgement is awaited or after cancellation.
    pub fn next_chunk_range(&mut self) -> (r: Result<Option<(u64, usize)>, TransferError>)
        requires
            old(self).wf(),
        ensures
            final(self).wf(),
            final(self).codec() == old(self).codec(),
            final(self).spec_manifest() == old(self).spec_manifest(),
            old(self)@.acknowledged_bytes == old(self)@.byte_length ==> r == Ok::<
                Option<(u64, usize)>,
                TransferError,
            >(None) && final(self)@ == (SenderView { state: TransportLifecycleState::Complete, ..old(self)@ }),
            old(self)@.acknowledged_bytes != old(self)@.byte_length && !(old(self)@.state is Transferring) ==> r
                == Err::<Option<(u64, usize)>, TransferError>(TransferError::InvalidTransportLifecycle) && final(self)@ == old(self)@,
            old(self)@.acknowledged_bytes != old(self)@.byte_length && old(self)@.state is Transferring ==> (r
                matches Ok(Some((offset, length))) && offset == old(self)@.acknowledged_bytes && length
                == old(self)@.next_length()) && final(self)@ == old(self)@,
    {
        if self.acknowledged_bytes == self.manifest.byte_length {
            self.state = TransportLifecycleState::Complete;
            return Ok(None);
        }
        if self.state != TransportLifecycleState::Transferring {
            return Err(TransferError::InvalidTransportLifecycle);
        }
        let rest = self.manifest.byte_length - self.acknowledged_bytes;
        let length = if rest < self.chunk_bytes as u64 {
            rest
        } else {
            self.chunk_bytes as u64
        };
        Ok(Some((self.acknowledged_bytes, length as usize)))
    }

    /// Seals the bytes read from the range `next_chunk_range` gave and waits
    /// for their acknowledgement.
    pub fn next_chunk(&mut self, plaintext: &[u8]) -> (r: Result<PeerWireMessage, TransferError>)
        requires
            old(self).wf(),
            old(self)@.state is Transferring,
            old(self)@.acknowledged_bytes < old(self)@.byte_length,
            plaintext@.len() == old(self)@.next_length(),
        ensures
            final(self).wf(),
            final(self).codec() == old(self).codec(),
            final(self).spec_manifest() == old(self).spec_manifest(),
            !range_valid(old(self)@.byte_length, old(self)@.acknowledged_bytes, plaintext@.len() as int) ==> r
                == Err::<PeerWireMessage, TransferError>(TransferError::InvalidEncryptedChunk) && final(self)@
                == old(self)@,
            range_valid(old(self)@.byte_length, old(self)@.acknowledged_bytes, plaintext@.len() as int) ==> (r
                matches Ok(m) && is_sealed_chunk(
                old(self).codec().spec_key(),
                old(self).codec().spec_nonce_prefix(),
                old(self)@.transfer_id,
                old(self)@.byte_length,
                old(self)@.acknowledged_bytes,
                plaintext@,
                m@,
            )) && final(self)@ == (SenderView {
                state: TransportLifecycleState::AwaitingAck {
                    end_offset: (old(self)@.acknowledged_bytes + plaintext@.len()) as u64,
                },
                ..old(self)@
            }),
    {
        let chunk = self.codec.encrypt(self.acknowledged_bytes, plaintext)?;
        let end_offset = self.acknowledged_bytes + plaintext.len() as u64;
        self.state = TransportLifecycleState::AwaitingAck { end_offset };
        Ok(PeerWireMessage::EncryptedChunk(chunk))
    }

    /// Takes the receiver's durable acknowledgement of the awaited chunk.
    pub fn accept_ack(&mut self, message: &PeerWireMessage) -> (r: Result<u64, TransferError>)
        requires
            old(self).wf(),
        ensures
            final(self).wf(),
            final(self).codec() == old(self).codec(),
            final(self).spec_manifest() == old(self).spec_manifest(),
            match ack_error(old(self)@, message@) {
                Some(e) => r == Err::<u64, TransferError>(e) && final(self)@ == old(self)@,
                None => r matches Ok(n) && old(self)@.state == (TransportLifecycleState::AwaitingAck { end_offset: n })
                    && old(self)@.acknowledged_bytes < n && final(self)@ == (SenderView {
                    acknowledged_bytes: n,
                    state: state_after(n, old(self)@.byte_length),
                    ..old(self)@
                }),
            },
    {
        let end_offset = match self.state {
            TransportLifecycleState::AwaitingAck { end_offset } => end_offset,
            _ => return Err(TransferError::InvalidTransportLifecycle),
        };
        let (transfer_id, persisted_bytes) = match message {
            PeerWireMessage::DurableAck { transfer_id, persisted_bytes } => (transfer_id, *persisted_bytes),
            _ => return Err(TransferError::InvalidWireMessage),
        };
        if !str_eq(transfer_id.as_str(), self.manifest.transfer_id.as_str()) || persisted_bytes != end_offset {
            return Err(TransferError::InvalidAcknowledgement);
        }
        self.acknowledged_bytes = persisted_bytes;
        self.state = if self.acknowledged_bytes == self.manifest.byte_length {
            TransportLifecycleState::Complete
        } else {
            TransportLifecycleState::Transferring
        };
        Ok(self.acknowledged_bytes)
    }

    /// The transport dropped: the exchange waits for a resume checkpoint.
    pub fn mark_disconnected(&mut self)
        requires
            old(self).wf(),
        ensures
            final(self).wf(),
            final(self).codec() == old(self).codec(),
            final(self).spec_manifest() == old(self).spec_manifest(),
            final(self)@ == (SenderView {
                state: TransportLifecycleState::Cancelled { reason: TransferCancelReason::PeerDisconnected },
                ..old(self)@
            }),
    {
        self.state = TransportLifecycleState::Cancelled { reason: TransferCancelReason::PeerDisconnected };
    }

    /// Continues a disconnected exchange from the receiver's checkpoint;
    /// `source` is the outcome of comparing the source file with it.
    pub fn resume_from_checkpoint(
        &mut self,
        session: &TransferSession,
        checkpoint: &ResumeCheckpoint,
        source: Result<(), TransferError>,
    ) -> (r: Result<u64, TransferError>)
        requires
            old(self).wf(),
        ensures
            final(self).wf(),
            final(self).codec() == old(self).codec(),
            final(self).spec_manifest() == old(self).spec_manifest(),
            old(self)@.state != (TransportLifecycleState::Cancelled {
                reason: TransferCancelReason::PeerDisconnected,
            }) ==> r == Err::<u64, TransferError>(TransferError::InvalidTransportLifecycle) && final(self)@ == old(self)@,
            old(self)@.state == (TransportLifecycleState::Cancelled { reason: TransferCancelReason::PeerDisconnected })
                ==> match resume_checkpoint_error(*session, *checkpoint) {
                Some(e) => r == Err::<u64, TransferError>(e) && final(self)@ == old(self)@,
                None => match checkpoint_shape_error(old(self).spec_manifest(), *checkpoint) {
                    Some(e) => r == Err::<u64, TransferError>(e) && final(self)@ == old(self)@,
                    None => match source {
                        Err(e) => r == Err::<u64, TransferError>(e) && final(self)@ == old(self)@,
                        Ok(_) => r == Ok::<u64, TransferError>(checkpoint.persisted_bytes) && final(self)@ == (
                        SenderView {
                            acknowledged_bytes: checkpoint.persisted_bytes,
                            state: state_after(checkpoint.persisted_bytes, old(self)@.byte_length),
                            ..old(self)@
                        }),
                    },
                },
            },
    {
        if self.state != (TransportLifecycleState::Cancelled { reason: TransferCancelReason::PeerDisconnected }) {
            return Err(TransferError::InvalidTransportLifecycle);
        }
        let offset = session.accept_resume_checkpoint(checkpoint)?;
        check_resume_checkpoint(&self.manifest, checkpoint)?;
        source?;
        self.acknowledged_bytes = offset;
        self.state = if offset == self.manifest.byte_length {
            TransportLifecycleState::Complete
        } else {
            TransportLifecycleState::Transferring
        };
        Ok(offset)
    }

    /// Cancels an unfinished exchange and gives the message telling the peer.
    pub fn cancel(&mut self, reason: TransferCancelReason) -> (r: Result<PeerWireMessage, TransferError>)
        requires
            old(self).wf(),
        ensures
            final(self).wf(),
            final(self).codec() == old(self).codec(),
            final(self).spec_manifest() == old(self).spec_manifest(),
            (old(self)@.state is Complete || old(self)@.state is Cancelled) ==> r == Err::<
                PeerWireMessage,
                TransferError,
            >(TransferError::InvalidTransportLifecycle) && final(self)@ == old(self)@,
            !(old(self)@.state is Complete || old(self)@.state is Cancelled) ==> (r matches Ok(m) && m@
                == WireView::Cancel { transfer_id: old(self)@.transfer_id, reason }) && final(self)@ == (SenderView {
                state: TransportLifecycleState::Cancelled { reason },
                ..old(self)@
            }),
    {
        if matches!(self.state, TransportLifecycleState::Complete) || matches!(
            self.state,
            TransportLifecycleState::Cancelled { .. }
        ) {
            return Err(TransferError::InvalidTransportLifecycle);
        }
        self.state = TransportLifecycleState::Cancelled { reason };
        Ok(PeerWireMessage::Cancel { transfer_id: self.manifest.transfer_id.clone(), reason })
    }
}

// ---------------------------------------------------------------------------
// The receiver.

/// The receiver's position in the exchange as plain values.
pub struct ReceiverView {
    pub transfer_id: Seq<char>,
    pub byte_length: u64,
    pub chunk_size: u32,
    pub persisted_bytes: u64,
    pub state: TransportLifecycleState,
}

/// What the receiver does with an accepted message: write the decrypted
/// bytes durably at `offset`, or stop because the sender cancelled.
pub enum ReceiverStep {
    Persist { offset: u64, plaintext: Vec<u8> },
    Cancelled,
}

/// The receiver's side of the chunk exchange for one transfer; the durable
/// writes themselves are the caller's.
pub struct ReceiverProgress {
    codec: EncryptedChunkCodec,
    manifest: TransferManifest,
    persisted_bytes: u64,
    state: TransportLifecycleState,
}

impl View for ReceiverProgress {
    type V = ReceiverView;

    closed spec fn view(&self) -> ReceiverView {
        ReceiverView {
            transfer_id: self.manifest.transfer_id@,
            byte_length: self.manifest.byte_length,
            chunk_size: self.manifest.chunk_size,
            persisted_bytes: self.persisted_bytes,
            state: self.state,
        }
    }
}

/// Why a receiver cannot start.
pub open spec fn receiver_open_error(
    manifest: TransferManifest,
    session: TransferSession,
    codec_transfer_id: Seq<char>,
    codec_total: u64,
) -> bool {
    !(session.state is Transferring) || !same_manifest(manifest, session.manifest) || codec_transfer_id
        != session.manifest.transfer_id@ || codec_total != session.manifest.byte_length
}

/// The next contiguous write: it starts where the durable prefix ends, is
/// not empty, stays inside the asset and within one manifest chunk.
pub open spec fn next_write_valid(v: ReceiverView, offset: u64, length: int) -> bool {
    offset == v.persisted_bytes && length > 0 && offset + length <= v.byte_length && length <= v.chunk_size
}

/// Two manifests declare the same transfer, field by field.
pub open spec fn same_manifest(a: TransferManifest, b: TransferManifest) -> bool {
    &&& a.schema_version == b.schema_version
    &&& a.transfer_id@ == b.transfer_id@
    &&& a.media_type == b.media_type
    &&& a.file_name@ == b.file_name@
    &&& a.byte_length == b.byte_length
    &&& a.chunk_size == b.chunk_size
    &&& a.sha256_hex@ == b.sha256_hex@
    &&& a.metadata_policy == b.metadata_policy
}

pub(crate) fn manifests_equal(a: &TransferManifest, b: &TransferManifest) -> (r: bool)
    ensures
        r == same_manifest(*a, *b),
{
    a.schema_version == b.schema_version && str_eq(a.transfer_id.as_str(), b.transfer_id.as_str()) && a.media_type
        == b.media_type && str_eq(a.file_name.as_str(), b.file_name.as_str()) && a.byte_length == b.byte_length
        && a.chunk_size == b.chunk_size && str_eq(a.sha256_hex.as_str(), b.sha256_hex.as_str()) && a.metadata_policy
        == b.metadata_policy
}

impl ReceiverProgress {
    pub closed spec fn codec(&self) -> EncryptedChunkCodec {
        self.codec
    }

    pub closed spec fn spec_manifest(&self) -> TransferManifest {
        self.manifest
    }

    pub closed spec fn wf(&self) -> bool {
        &&& self.codec.wf()
        &&& self.codec.spec_transfer_id() == self.manifest.transfer_id@
        &&& self.codec.spec_total() == self.manifest.byte_length
        &&& self.persisted_bytes <= self.manifest.byte_length
        &&& self.state is Complete ==> self.persisted_bytes == self.manifest.byte_length
    }

    /// Starts receiving into a writer whose manifest and durable prefix are
    /// given, once the session transfers and the codec belongs to it.
    pub fn new(
        manifest: TransferManifest,
        persisted_bytes: u64,
        session: &TransferSession,
        codec: EncryptedChunkCodec,
    ) -> (r: Result<Self, TransferError>)
        requires
            codec.wf(),
            persisted_bytes <= manifest.byte_length,
        ensures
            receiver_open_error(manifest, *session, codec.spec_transfer_id(), codec.spec_total()) ==> r
                == Err::<Self, TransferError>(TransferError::InvalidState),
            !receiver_open_error(manifest, *session, codec.spec_transfer_id(), codec.spec_total()) ==> (r
                matches Ok(p) && p.wf() && p.codec() == codec && p.spec_manifest() == manifest && p@ == (
            ReceiverView {
                transfer_id: manifest.transfer_id@,
                byte_length: manifest.byte_length,
                chunk_size: manifest.chunk_size,
                persisted_bytes,
                state: TransportLifecycleState::Transferring,
            })),
    {
        if !matches!(session.state, TransferState::Transferring { .. }) || !manifests_equal(&manifest, &session.manifest)
            || !str_eq(codec.transfer_id(), session.manifest.transfer_id.as_str()) || codec.total_plaintext_bytes()
            != session.manifest.byte_length {
            return Err(TransferError::InvalidState);
        }
        Ok(ReceiverProgress { codec, manifest, persisted_bytes, state: TransportLifecycleState::Transferring })
    }

    pub fn state(&self) -> (r: TransportLifecycleState)
        ensures
            r == self@.state,
    {
        self.state
    }

    pub fn persisted_bytes(&self) -> (r: u64)
        ensures
            r == self@.persisted_bytes,
    {
        self.persisted_bytes
    }

    pub fn manifest(&self) -> (r: &TransferManifest)
        ensures
            *r == self.spec_manifest(),
    {
        &self.manifest
    }

    /// Takes a message from the sender: a chunk is authenticated, decrypted
    /// and checked to be the next contiguous write; a cancel for this
    /// transfer stops the exchange. A chunk the sender sealed from `m` at the
    /// durable offset is accepted as exactly `m`.
    pub fn accept(&mut self, message: &PeerWireMessage) -> (r: Result<ReceiverStep, TransferError>)
        requires
            old(self).wf(),
        ensures
            final(self).wf(),
            final(self).codec() == old(self).codec(),
            final(self).spec_manifest() == old(self).spec_manifest(),
            !(old(self)@.state is Transferring) ==> (r matches Err(e) && e == TransferError::InvalidTransportLifecycle)
                && final(self)@ == old(self)@,
            old(self)@.state is Transferring ==> match message {
                PeerWireMessage::EncryptedChunk(chunk) => final(self)@ == old(self)@ && match decrypt_outcome(
                    old(self).codec().spec_key(),
                    old(self).codec().spec_nonce_prefix(),
                    old(self)@.transfer_id,
                    old(self)@.byte_length,
                    *chunk,
                ) {
                    Err(e) => r matches Err(x) && x == e,
                    Ok(p) => if next_write_valid(old(self)@, chunk.offset, p.len() as int) {
                        r matches Ok(ReceiverStep::Persist { offset, plaintext }) && offset == chunk.offset
                            && plaintext@ == p
                    } else {
                        r matches Err(x) && x == TransferError::InvalidChunk
                    },
                },
                PeerWireMessage::Cancel { transfer_id, reason } => if transfer_id@ == old(self)@.transfer_id {
                    (r matches Ok(ReceiverStep::Cancelled)) && final(self)@ == (ReceiverView {
                        state: TransportLifecycleState::Cancelled { reason: *reason },
                        ..old(self)@
                    })
                } else {
                    (r matches Err(x) && x == TransferError::InvalidWireMessage) && final(self)@ == old(self)@
                },
                _ => (r matches Err(x) && x == TransferError::InvalidWireMessage) && final(self)@ == old(self)@,
            },
            forall|m: Seq<u8>|
                old(self)@.state is Transferring && next_write_valid(old(self)@, old(self)@.persisted_bytes, m.len() as int)
                    && m.len() <= MAX_CHUNK_BYTES && is_sealed_chunk(
                    old(self).codec().spec_key(),
                    old(self).codec().spec_nonce_prefix(),
                    old(self)@.transfer_id,
                    old(self)@.byte_length,
                    old(self)@.persisted_bytes,
                    m,
                    message@,
                ) ==> (r matches Ok(ReceiverStep::Persist { offset, plaintext }) && offset
                    == old(self)@.persisted_bytes && plaintext@ == m),
    {
        if self.state != TransportLifecycleState::Transferring {
            return Err(TransferError::InvalidTransportLifecycle);
        }
        match message {
            PeerWireMessage::EncryptedChunk(chunk) => {
                let plaintext = self.codec.decrypt(chunk)?;
                if chunk.offset != self.persisted_bytes || plaintext.len() == 0 {
                    return Err(TransferError::InvalidChunk);
                }
                let next = match chunk.offset.checked_add(plaintext.len() as u64) {
                    Some(n) => n,
                    None => return Err(TransferError::InvalidChunk),
                };
                if next > self.manifest.byte_length || plaintext.len() as u64 > self.manifest.chunk_size as u64 {
                    return Err(TransferError::InvalidChunk);
                }
                Ok(ReceiverStep::Persist { offset: chunk.offset, plaintext })
            },
            PeerWireMessage::Cancel { transfer_id, reason } => {
                if str_eq(transfer_id.as_str(), self.manifest.transfer_id.as_str()) {
                    self.state = TransportLifecycleState::Cancelled { reason: *reason };
                    Ok(ReceiverStep::Cancelled)
                } else {
                    Err(TransferError::InvalidWireMessage)
                }
            },
            _ => Err(TransferError::InvalidWireMessage),
        }
    }

    /// Records that the write `accept` asked for is durable and gives the
    /// acknowledgement for the sender; the exchange completes with the last
    /// byte.
    pub fn record_persisted(&mut self, offset: u64, byte_count: usize) -> (r: PeerWireMessage)
        requires
            old(self).wf(),
            old(self)@.state is Transferring,
            next_write_valid(old(self)@, offset, byte_count as int),
        ensures
            final(self).wf(),
            final(self).codec() == old(self).codec(),
            final(self).spec_manifest() == old(self).spec_manifest(),
            r@ == (WireView::Ack { transfer_id: old(self)@.transfer_id, persisted_bytes: (offset + byte_count) as u64 }),
            final(self)@ == (ReceiverView {
                persisted_bytes: (offset + byte_count) as u64,
                state: state_after((offset + byte_count) as u64, old(self)@.byte_length),
                ..old(self)@
            }),
    {
        self.persisted_bytes = offset + byte_count as u64;
        if self.persisted_bytes == self.manifest.byte_length {
            self.state = TransportLifecycleState::Complete;
        }
        PeerWireMessage::DurableAck {
            transfer_id: self.manifest.transfer_id.clone(),
            persisted_bytes: self.persisted_bytes,
        }
    }

    /// The received file may be finalized only after the exchange completed.
    pub fn require_complete(&self) -> (r: Result<(), TransferError>)
        ensures
            self@.state is Complete ==> r is Ok,
            !(self@.state is Complete) ==> r == Err::<(), TransferError>(TransferError::InvalidTransportLifecycle),
    {
        if self.state != TransportLifecycleState::Complete {
            return Err(TransferError::InvalidTransportLifecycle);
        }
        Ok(())
    }
}

/// One step of the exchange keeps both sides together: when the sender
/// awaits the acknowledgement of a chunk sealed at the receiver's durable
/// offset, the acknowledgement the receiver gives after persisting it is
/// accepted, and both sides then hold the same number of bytes and are in
/// the same state.
pub proof fn law_exchange_step_keeps_peers_in_step(sender: SenderView, receiver: ReceiverView, length: int)
    requires
        sender.transfer_id == receiver.transfer_id,
        sender.byte_length == receiver.byte_length,
        sender.acknowledged_bytes == receiver.persisted_bytes,
        next_write_valid(receiver, receiver.persisted_bytes, length),
        sender.state == (TransportLifecycleState::AwaitingAck {
            end_offset: (sender.acknowledged_bytes + length) as u64,
        }),
    ensures
        ({
            let ack = WireView::Ack {
                transfer_id: receiver.transfer_id,
                persisted_bytes: (receiver.persisted_bytes + length) as u64,
            };
            &&& ack_error(sender, ack) is None
            &&& state_after((receiver.persisted_bytes + length) as u64, receiver.byte_length) == state_after(
                (sender.acknowledged_bytes + length) as u64,
                sender.byte_length,
            )
        }),
{
}

/// Checks a plaintext write against the durable prefix: it must be the next
/// contiguous, non-empty write inside the asset and within one manifest
/// chunk. Gives the new durable length.
pub fn check_write(manifest: &TransferManifest, persisted_bytes: u64, offset: u64, length: usize) -> (r: Result<
    u64,
    TransferError,
>)
    ensures
        offset == persisted_bytes && length > 0 && offset + length <= manifest.byte_length && length
            <= manifest.chunk_size ==> r == Ok::<u64, TransferError>((offset + length) as u64),
        !(offset == persisted_bytes && length > 0 && offset + length <= manifest.byte_length && length
            <= manifest.chunk_size) ==> r == Err::<u64, TransferError>(TransferError::InvalidChunk),
{
    if offset != persisted_bytes || length == 0 {
        return Err(TransferError::InvalidChunk);
    }
    let next = match offset.checked_add(length as u64) {
        Some(n) => n,
        None => return Err(TransferError::InvalidChunk),
    };
    if next > manifest.byte_length || length as u64 > manifest.chunk_size as u64 {
        return Err(TransferError::InvalidChunk);
    }
    Ok(next)
}

// ---------------------------------------------------------------------------
// The receiver's durable ledger.

/// What the receiver keeps beside the partial file so that an interrupted
/// transfer resumes where its durable prefix ends.
pub struct ReceiveLedger {
    pub schema_version: u16,
    pub manifest: TransferManifest,
    pub persisted_bytes: u64,
}

/// Where a receive resumes, or why it cannot: a ledger must belong to this
/// manifest and protocol, and the rest of the asset plus the reserve must fit
/// in the free space.
pub open spec fn resume_position(
    manifest: TransferManifest,
    ledger: Option<ReceiveLedger>,
    available_bytes: u64,
    safety_reserve_bytes: u64,
) -> Result<u64, TransferError> {
    let persisted: u64 = match ledger {
        Some(l) => l.persisted_bytes,
        None => 0,
    };
    let remaining: int = if persisted <= manifest.byte_length { manifest.byte_length - persisted } else { 0 };
    let needed: int = if remaining + safety_reserve_bytes <= u64::MAX { remaining + safety_reserve_bytes } else { u64::MAX as int };
    if ledger matches Some(l) && (l.schema_version != PROTOCOL_VERSION || !same_manifest(l.manifest, manifest)) {
        Err(TransferError::ManifestMismatch)
    } else if available_bytes < needed {
        Err(TransferError::InsufficientStorage)
    } else {
        Ok(persisted)
    }
}

pub fn receive_resume_position(
    manifest: &TransferManifest,
    ledger: &Option<ReceiveLedger>,
    available_bytes: u64,
    safety_reserve_bytes: u64,
) -> (r: Result<u64, TransferError>)
    ensures
        r == resume_position(*manifest, *ledger, available_bytes, safety_reserve_bytes),
{
    let persisted = match ledger {
        Some(l) => {
            if l.schema_version != PROTOCOL_VERSION || !manifests_equal(&l.manifest, manifest) {
                return Err(TransferError::ManifestMismatch);
            }
            l.persisted_bytes
        },
        None => 0,
    };
    let remaining = manifest.byte_length.saturating_sub(persisted);
    if available_bytes < remaining.saturating_add(safety_reserve_bytes) {
        return Err(TransferError::InsufficientStorage);
    }
    Ok(persisted)
}

/// The partial file must hold exactly the durable prefix the ledger records.
pub fn check_partial_file(manifest: &TransferManifest, persisted_bytes: u64, file_length: u64) -> (r: Result<
    (),
    TransferError,
>)
    ensures
        file_length == persisted_bytes && persisted_bytes <= manifest.byte_length ==> r is Ok,
        !(file_length == persisted_bytes && persisted_bytes <= manifest.byte_length) ==> r == Err::<(), TransferError>(
            TransferError::CorruptResumeLedger,
        ),
{
    if file_length != persisted_bytes || persisted_bytes > manifest.byte_length {
        return Err(TransferError::CorruptResumeLedger);
    }
    Ok(())
}

/// A finished receive holds every byte and hashes to the manifest's digest;
/// gives the digest as lowercase hex.
pub fn check_received_content(manifest: &TransferManifest, persisted_bytes: u64, digest: &[u8; 32]) -> (r: Result<
    String,
    TransferError,
>)
    ensures
        persisted_bytes != manifest.byte_length ==> (r matches Err(e) && e == TransferError::IncompleteReceive),
        persisted_bytes == manifest.byte_length && !eq_ignore_ascii_case_bytes(
            encode_utf8(hex_text(digest@)),
            encode_utf8(manifest.sha256_hex@),
        ) ==> (r matches Err(e) && e == TransferError::ContentVerificationFailed),
        persisted_bytes == manifest.byte_length && eq_ignore_ascii_case_bytes(
            encode_utf8(hex_text(digest@)),
            encode_utf8(manifest.sha256_hex@),
        ) ==> (r matches Ok(h) && h@ == hex_text(digest@)),
{
    if persisted_bytes != manifest.byte_length {
        return Err(TransferError::IncompleteReceive);
    }
    let hex = hex_lower(digest.as_slice());
    if !eq_ignore_ascii_case(hex.as_str(), manifest.sha256_hex.as_str()) {
        return Err(TransferError::ContentVerificationFailed);
    }
    Ok(hex)
}

} // verus!
