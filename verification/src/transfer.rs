//! Transport-independent contract for nearby media transfer: session identity,
//! negotiation, manifest validation and the state transitions required before
//! an asset may become visible.
use vstd::prelude::*;
use vstd::string::*;
use vstd::utf8::{encode_utf8, is_ascii_chars, is_ascii_chars_encode_utf8};
use crate::asset::{DerivativeProvenance, DerivativePurpose};
use crate::camera::CapturedMediaType;
use crate::asset::CaptureMetadata;

verus! {

pub const PROTOCOL_VERSION: u16 = 1;

pub const MIN_CHUNK_BYTES: u32 = 16384;

pub const MAX_CHUNK_BYTES: u32 = 4194304;

pub const MAX_ASSET_BYTES: u64 = 107374182400;

pub const DEFAULT_RECEIVE_RESERVE_BYTES: u64 = 268435456;

/// Largest payload a wire frame may carry: one chunk plus framing fields.
pub const MAX_WIRE_FRAME_BYTES: usize = 4194816;

#[derive(Debug, Clone, PartialEq, Eq)]
pub enum TransferError {
    UnsupportedVersion(u16),
    InvalidManifest(&'static str),
    InvalidInvitation,
    UnsafeFileName,
    InvitationExpired,
    ConfirmationMismatch,
    InvalidEphemeralKey,
    KeyAgreementContextMismatch,
    KeyDerivationFailed,
    SecureRandomFailed,
    NoCompatibleProtocol,
    NoHighBandwidthTransport,
    NoCompatibleChunkSize,
    InvalidAcknowledgement,
    InvalidChunk,
    InvalidEncryptedChunk,
    ChunkAuthenticationFailed,
    InvalidWireMessage,
    WireFrameTooLarge,
    InvalidTransportTimeout,
    InvalidTransportLifecycle,
    ManifestMismatch,
    CorruptResumeLedger,
    InvalidResumeCheckpoint,
    ResumePrefixMismatch,
    LedgerSerialization,
    InsufficientStorage,
    IncompleteReceive,
    DestinationExists,
    UnsafeReceivePath,
    ContentVerificationFailed,
    InvalidState,
    InvalidSourceAsset,
    InvalidSelection,
    InvalidBundle,
    BundleDependencyNotFinalized,
    BundleResourceAlreadyFinalized,
    BundleFinalizationMismatch,
    MissingDerivativeProvenance,
    DerivativeParentMismatch,
    MetadataSanitizationRequired,
    UnsupportedMetadataPolicy,
    UnsupportedMediaForSanitization,
    SanitizedSourceMismatch,
    MalformedJpeg,
    MediaIndex(String),
    MediaValidation(String),
    Io(String),
}

#[derive(Debug, Clone, Copy, PartialEq, Eq)]
pub struct EphemeralPublicKey {
    pub bytes: [u8; 32],
}

#[derive(Debug, Clone, PartialEq, Eq)]
pub struct PeerIdentity {
    /// Random identifier regenerated for each visibility session.
    pub ephemeral_id: String,
    /// Optional user-chosen nearby label. Never substitute a device name.
    pub display_label: Option<String>,
}

#[derive(Debug, Clone, Copy, PartialEq, Eq, Structural)]
pub enum TransportKind {
    BleControl,
    LocalNetwork,
    PeerToPeerWifi,
    WifiDirect,
}

#[derive(Debug, Clone, PartialEq, Eq)]
pub struct PeerCapabilities {
    pub protocol_version: u16,
    pub transports: Vec<TransportKind>,
    pub max_chunk_bytes: u32,
    pub supports_resume: bool,
}

#[derive(Debug, Clone, PartialEq, Eq)]
pub struct Invitation {
    pub invitation_id: String,
    pub sender: PeerIdentity,
    /// Six decimal digits compared on both devices before transport upgrade.
    pub confirmation_code: String,
    pub expires_at_unix_ms: u64,
}

#[derive(Debug, Clone, Copy, PartialEq, Eq, Structural)]
pub enum SharedMediaType {
    Photo,
    Video,
}

#[derive(Debug, Clone, Copy, PartialEq, Eq, Structural)]
pub enum MetadataPolicy {
    StripLocation,
    StripDeviceAndLocation,
    Preserve,
}

#[derive(Debug, Clone, PartialEq, Eq)]
pub struct TransferManifest {
    pub schema_version: u16,
    pub transfer_id: String,
    pub media_type: SharedMediaType,
    /// A basename only. Receivers choose their own incomplete destination.
    pub file_name: String,
    pub byte_length: u64,
    pub chunk_size: u32,
    pub sha256_hex: String,
    pub metadata_policy: MetadataPolicy,
}

#[derive(Debug, Clone, PartialEq, Eq)]
pub enum TransferState {
    AwaitingApproval,
    Negotiating,
    Transferring { acknowledged_bytes: u64 },
    Verifying,
    Finalized,
    Cancelled,
    Failed { reason: String },
}

#[derive(Debug, Clone, PartialEq, Eq)]
pub struct TransferSession {
    pub invitation: Invitation,
    pub manifest: TransferManifest,
    pub state: TransferState,
    pub negotiated_transport: Option<TransportKind>,
    pub negotiated_chunk_bytes: Option<u32>,
    pub negotiated_resume: bool,
}

// ---------------------------------------------------------------------------
// Byte classes and tokens.

pub open spec fn ascii_alphanumeric(b: u8) -> bool {
    (0x30 <= b <= 0x39) || (0x41 <= b <= 0x5a) || (0x61 <= b <= 0x7a)
}

pub open spec fn ascii_digit(b: u8) -> bool {
    0x30 <= b <= 0x39
}

pub open spec fn ascii_hexdigit(b: u8) -> bool {
    (0x30 <= b <= 0x39) || (0x41 <= b <= 0x46) || (0x61 <= b <= 0x66)
}

/// A byte allowed in an identifier: ASCII alphanumeric, `-`, `_`, and `.`
/// where dots are allowed.
pub open spec fn token_byte(b: u8, dots: bool) -> bool {
    ascii_alphanumeric(b) || b == 0x2d || b == 0x5f || (dots && b == 0x2e)
}

pub open spec fn token_bytes(b: Seq<u8>, dots: bool) -> bool {
    0 < b.len() <= 128 && forall|i: int| 0 <= i < b.len() ==> token_byte(#[trigger] b[i], dots)
}

/// A non-empty identifier of at most 128 bytes of `[A-Za-z0-9._-]`.
pub open spec fn safe_token_text(s: Seq<char>) -> bool {
    token_bytes(encode_utf8(s), true)
}

/// A non-empty identifier of at most 128 bytes of `[A-Za-z0-9_-]`.
pub open spec fn safe_media_token_text(s: Seq<char>) -> bool {
    token_bytes(encode_utf8(s), false)
}

pub open spec fn all_digits(b: Seq<u8>) -> bool {
    forall|i: int| 0 <= i < b.len() ==> ascii_digit(#[trigger] b[i])
}

pub open spec fn all_hexdigits(b: Seq<u8>) -> bool {
    forall|i: int| 0 <= i < b.len() ==> ascii_hexdigit(#[trigger] b[i])
}

/// Exactly 64 hexadecimal digits.
pub open spec fn sha256_hex_text(s: Seq<char>) -> bool {
    encode_utf8(s).len() == 64 && all_hexdigits(encode_utf8(s))
}

/// Exactly six decimal digits.
pub open spec fn six_digit_text(s: Seq<char>) -> bool {
    encode_utf8(s).len() == 6 && all_digits(encode_utf8(s))
}

fn token_check(value: &str, dots: bool) -> (r: bool)
    ensures
        r == token_bytes(encode_utf8(value@), dots),
{
    let bytes = value.as_bytes();
    if bytes.len() == 0 || bytes.len() > 128 {
        return false;
    }
    let mut i: usize = 0;
    while i < bytes.len()
        invariant
            bytes@ == encode_utf8(value@),
            i <= bytes@.len(),
            forall|k: int| 0 <= k < i ==> token_byte(#[trigger] bytes@[k], dots),
        decreases bytes.len() - i,
    {
        let b = bytes[i];
        let ok = (0x30 <= b && b <= 0x39) || (0x41 <= b && b <= 0x5a) || (0x61 <= b && b <= 0x7a) || b == 0x2d
            || b == 0x5f || (dots && b == 0x2e);
        if !ok {
            return false;
        }
        i = i + 1;
    }
    true
}

pub fn safe_token(value: &str) -> (r: bool)
    ensures
        r == safe_token_text(value@),
{
    token_check(value, true)
}

pub fn safe_media_token(value: &str) -> (r: bool)
    ensures
        r == safe_media_token_text(value@),
{
    token_check(value, false)
}

fn all_digits_check(value: &str, hex: bool) -> (r: bool)
    ensures
        hex ==> r == all_hexdigits(encode_utf8(value@)),
        !hex ==> r == all_digits(encode_utf8(value@)),
{
    let bytes = value.as_bytes();
    let mut i: usize = 0;
    while i < bytes.len()
        invariant
            bytes@ == encode_utf8(value@),
            i <= bytes@.len(),
            hex ==> forall|k: int| 0 <= k < i ==> ascii_hexdigit(#[trigger] bytes@[k]),
            !hex ==> forall|k: int| 0 <= k < i ==> ascii_digit(#[trigger] bytes@[k]),
        decreases bytes.len() - i,
    {
        let b = bytes[i];
        let digit = 0x30 <= b && b <= 0x39;
        let ok = if hex {
            digit || (0x41 <= b && b <= 0x46) || (0x61 <= b && b <= 0x66)
        } else {
            digit
        };
        if !ok {
            return false;
        }
        i = i + 1;
    }
    true
}

pub fn is_sha256_hex(value: &str) -> (r: bool)
    ensures
        r == sha256_hex_text(value@),
{
    value.as_bytes().len() == 64 && all_digits_check(value, true)
}

pub fn is_six_digits(value: &str) -> (r: bool)
    ensures
        r == six_digit_text(value@),
{
    value.as_bytes().len() == 6 && all_digits_check(value, false)
}

/// ASCII case folding of one byte.
pub open spec fn fold_byte(b: u8) -> u8 {
    if 0x41 <= b <= 0x5a {
        (b + 0x20) as u8
    } else {
        b
    }
}

/// Equality of two byte strings up to ASCII case.
pub open spec fn eq_ignore_ascii_case_bytes(a: Seq<u8>, b: Seq<u8>) -> bool {
    a.len() == b.len() && forall|i: int| 0 <= i < a.len() ==> fold_byte(#[trigger] a[i]) == fold_byte(b[i])
}

pub fn eq_ignore_ascii_case(a: &str, b: &str) -> (r: bool)
    ensures
        r == eq_ignore_ascii_case_bytes(encode_utf8(a@), encode_utf8(b@)),
{
    let x = a.as_bytes();
    let y = b.as_bytes();
    if x.len() != y.len() {
        return false;
    }
    let mut i: usize = 0;
    while i < x.len()
        invariant
            x@ == encode_utf8(a@),
            y@ == encode_utf8(b@),
            x@.len() == y@.len(),
            i <= x@.len(),
            forall|k: int| 0 <= k < i ==> fold_byte(#[trigger] x@[k]) == fold_byte(y@[k]),
        decreases x.len() - i,
    {
        let p = x[i];
        let q = y[i];
        let fp = if 0x41 <= p && p <= 0x5a { p + 0x20 } else { p };
        let fq = if 0x41 <= q && q <= 0x5a { q + 0x20 } else { q };
        if fp != fq {
            return false;
        }
        i = i + 1;
    }
    true
}

// ---------------------------------------------------------------------------
// Manifests and invitations.

/// A file name that could leave the receiver's directory, or names none.
pub open spec fn unsafe_file_name(s: Seq<char>) -> bool {
    s.len() == 0 || s == seq!['.'] || s == seq!['.', '.'] || s.contains('/') || s.contains('\\')
}

/// The first rule a manifest with these fields breaks, in the order they are checked.
pub open spec fn manifest_fields_error(
    schema_version: u16,
    transfer_id: Seq<char>,
    file_name: Seq<char>,
    byte_length: u64,
    chunk_size: u32,
    sha256_hex: Seq<char>,
) -> Option<TransferError> {
    if schema_version != PROTOCOL_VERSION {
        Some(TransferError::UnsupportedVersion(schema_version))
    } else if !safe_media_token_text(transfer_id) {
        Some(TransferError::InvalidManifest("transfer_id is invalid"))
    } else if unsafe_file_name(file_name) {
        Some(TransferError::UnsafeFileName)
    } else if byte_length == 0 || byte_length > MAX_ASSET_BYTES {
        Some(TransferError::InvalidManifest("byte_length is outside policy"))
    } else if chunk_size < MIN_CHUNK_BYTES || chunk_size > MAX_CHUNK_BYTES {
        Some(TransferError::InvalidManifest("chunk_size is outside policy"))
    } else if !sha256_hex_text(sha256_hex) {
        Some(TransferError::InvalidManifest("sha256_hex is invalid"))
    } else {
        None
    }
}

/// The first rule a manifest breaks, in the order they are checked.
pub open spec fn manifest_error(m: TransferManifest) -> Option<TransferError> {
    manifest_fields_error(m.schema_version, m.transfer_id@, m.file_name@, m.byte_length, m.chunk_size, m.sha256_hex@)
}

pub open spec fn outcome(e: Option<TransferError>) -> Result<(), TransferError> {
    match e {
        Some(e) => Err(e),
        None => Ok(()),
    }
}

fn is_unsafe_file_name(name: &str) -> (r: bool)
    ensures
        r == unsafe_file_name(name@),
{
    let n: usize = name.unicode_len();
    if n == 0 {
        return true;
    }
    let first = name.get_char(0);
    if n == 1 && first == '.' {
        assert(name@ =~= seq!['.']);
        return true;
    }
    if n == 2 && first == '.' && name.get_char(1) == '.' {
        assert(name@ =~= seq!['.', '.']);
        return true;
    }
    let mut i: usize = 0;
    while i < n
        invariant
            n == name@.len(),
            i <= n,
            forall|k: int| 0 <= k < i ==> name@[k] != '/' && name@[k] != '\\',
        decreases n - i,
    {
        let c = name.get_char(i);
        if c == '/' || c == '\\' {
            assert(name@[i as int] == c);
            return true;
        }
        i = i + 1;
    }
    assert(!(name@ =~= seq!['.'])) by {
        if name@ =~= seq!['.'] {
            assert(name@[0] == '.');
        }
    }
    assert(!(name@ =~= seq!['.', '.'])) by {
        if name@ =~= seq!['.', '.'] {
            assert(name@[0] == '.' && name@[1] == '.');
        }
    }
    false
}

impl TransferManifest {
    /// A copy of the manifest.
    pub fn duplicate(&self) -> (r: Self)
        ensures
            r == *self,
    {
        TransferManifest {
            schema_version: self.schema_version,
            transfer_id: self.transfer_id.clone(),
            media_type: self.media_type,
            file_name: self.file_name.clone(),
            byte_length: self.byte_length,
            chunk_size: self.chunk_size,
            sha256_hex: self.sha256_hex.clone(),
            metadata_policy: self.metadata_policy,
        }
    }

    /// Checks the manifest against the transfer policy.
    pub fn validate(&self) -> (r: Result<(), TransferError>)
        ensures
            r == outcome(manifest_error(*self)),
    {
        if self.schema_version != PROTOCOL_VERSION {
            return Err(TransferError::UnsupportedVersion(self.schema_version));
        }
        if !safe_media_token(self.transfer_id.as_str()) {
            return Err(TransferError::InvalidManifest("transfer_id is invalid"));
        }
        if is_unsafe_file_name(self.file_name.as_str()) {
            return Err(TransferError::UnsafeFileName);
        }
        if self.byte_length == 0 || self.byte_length > MAX_ASSET_BYTES {
            return Err(TransferError::InvalidManifest("byte_length is outside policy"));
        }
        if self.chunk_size < MIN_CHUNK_BYTES || self.chunk_size > MAX_CHUNK_BYTES {
            return Err(TransferError::InvalidManifest("chunk_size is outside policy"));
        }
        if !is_sha256_hex(self.sha256_hex.as_str()) {
            return Err(TransferError::InvalidManifest("sha256_hex is invalid"));
        }
        Ok(())
    }
}

pub open spec fn invitation_valid(i: Invitation) -> bool {
    safe_token_text(i.invitation_id@) && safe_token_text(i.sender.ephemeral_id@) && six_digit_text(
        i.confirmation_code@,
    )
}

pub fn validate_invitation(invitation: &Invitation) -> (r: Result<(), TransferError>)
    ensures
        r == (if invitation_valid(*invitation) { Ok(()) } else { Err(TransferError::InvalidInvitation) }),
{
    if !safe_token(invitation.invitation_id.as_str()) || !safe_token(invitation.sender.ephemeral_id.as_str()) {
        return Err(TransferError::InvalidInvitation);
    }
    if !is_six_digits(invitation.confirmation_code.as_str()) {
        return Err(TransferError::InvalidInvitation);
    }
    Ok(())
}

#[derive(Debug, Clone, PartialEq, Eq)]
pub struct ResumeCheckpoint {
    pub transfer_id: String,
    pub persisted_bytes: u64,
    pub prefix_sha256: String,
}

// ---------------------------------------------------------------------------
// The transfer session state machine.

pub open spec fn session_error(invitation: Invitation, manifest: TransferManifest) -> Option<TransferError> {
    if !invitation_valid(invitation) {
        Some(TransferError::InvalidInvitation)
    } else {
        manifest_error(manifest)
    }
}

pub open spec fn approve_error(s: TransferSession, code: Seq<char>, now_unix_ms: u64) -> Option<TransferError> {
    if !(s.state is AwaitingApproval) {
        Some(TransferError::InvalidState)
    } else if now_unix_ms > s.invitation.expires_at_unix_ms {
        Some(TransferError::InvitationExpired)
    } else if code != s.invitation.confirmation_code@ {
        Some(TransferError::ConfirmationMismatch)
    } else {
        None
    }
}

/// The first of the local transports, in the local order of preference, that
/// carries bulk data and that the remote peer also offers.
pub open spec fn first_shared_transport(local: Seq<TransportKind>, remote: Seq<TransportKind>) -> Option<TransportKind>
    decreases local.len(),
{
    if local.len() == 0 {
        None
    } else if local[0] != TransportKind::BleControl && remote.contains(local[0]) {
        Some(local[0])
    } else {
        first_shared_transport(local.drop_first(), remote)
    }
}

pub open spec fn min_u32(a: u32, b: u32) -> u32 {
    if a <= b {
        a
    } else {
        b
    }
}

/// The chunk size both peers and the manifest accept.
pub open spec fn negotiated_chunk(s: TransferSession, local: PeerCapabilities, remote: PeerCapabilities) -> u32 {
    min_u32(min_u32(s.manifest.chunk_size, local.max_chunk_bytes), remote.max_chunk_bytes)
}

pub open spec fn negotiate_error(s: TransferSession, local: PeerCapabilities, remote: PeerCapabilities) -> Option<
    TransferError,
> {
    if !(s.state is Negotiating) {
        Some(TransferError::InvalidState)
    } else if local.protocol_version != PROTOCOL_VERSION || remote.protocol_version != PROTOCOL_VERSION {
        Some(TransferError::NoCompatibleProtocol)
    } else if first_shared_transport(local.transports@, remote.transports@) is None {
        Some(TransferError::NoHighBandwidthTransport)
    } else if negotiated_chunk(s, local, remote) < MIN_CHUNK_BYTES {
        Some(TransferError::NoCompatibleChunkSize)
    } else {
        None
    }
}

pub open spec fn negotiate_next(s: TransferSession, local: PeerCapabilities, remote: PeerCapabilities) -> TransferSession {
    TransferSession {
        negotiated_transport: first_shared_transport(local.transports@, remote.transports@),
        negotiated_chunk_bytes: Some(negotiated_chunk(s, local, remote)),
        negotiated_resume: local.supports_resume && remote.supports_resume,
        state: TransferState::Transferring { acknowledged_bytes: 0 },
        ..s
    }
}

pub open spec fn acknowledge_error(s: TransferSession, contiguous_bytes: u64) -> Option<TransferError> {
    match s.state {
        TransferState::Transferring { acknowledged_bytes } => if contiguous_bytes < acknowledged_bytes
            || contiguous_bytes > s.manifest.byte_length {
            Some(TransferError::InvalidAcknowledgement)
        } else {
            None
        },
        _ => Some(TransferError::InvalidState),
    }
}

pub open spec fn acknowledge_next(s: TransferSession, contiguous_bytes: u64) -> TransferSession {
    TransferSession {
        state: if contiguous_bytes == s.manifest.byte_length {
            TransferState::Verifying
        } else {
            TransferState::Transferring { acknowledged_bytes: contiguous_bytes }
        },
        ..s
    }
}

/// The received content matches what the manifest declares.
pub open spec fn content_matches(s: TransferSession, received_bytes: u64, sha256_hex: Seq<char>) -> bool {
    received_bytes == s.manifest.byte_length && eq_ignore_ascii_case_bytes(
        encode_utf8(sha256_hex),
        encode_utf8(s.manifest.sha256_hex@),
    )
}

pub open spec fn cancellable(state: TransferState) -> bool {
    !(state is Finalized) && !(state is Cancelled)
}

pub open spec fn resume_checkpoint_error(s: TransferSession, checkpoint: ResumeCheckpoint) -> Option<TransferError> {
    if !(s.state is Transferring) {
        Some(TransferError::InvalidState)
    } else if !s.negotiated_resume || checkpoint.transfer_id@ != s.manifest.transfer_id@ || checkpoint.persisted_bytes
        > s.manifest.byte_length || !sha256_hex_text(checkpoint.prefix_sha256@) {
        Some(TransferError::InvalidResumeCheckpoint)
    } else {
        None
    }
}

fn contains_transport(v: &Vec<TransportKind>, t: TransportKind) -> (r: bool)
    ensures
        r == v@.contains(t),
{
    let mut j: usize = 0;
    while j < v.len()
        invariant
            j <= v@.len(),
            forall|k: int| 0 <= k < j ==> v@[k] != t,
        decreases v.len() - j,
    {
        if v[j] == t {
            assert(v@[j as int] == t);
            return true;
        }
        j = j + 1;
    }
    false
}

fn first_shared(local: &Vec<TransportKind>, remote: &Vec<TransportKind>) -> (r: Option<TransportKind>)
    ensures
        r == first_shared_transport(local@, remote@),
{
    let mut i: usize = 0;
    assert(local@.subrange(0, local@.len() as int) =~= local@);
    while i < local.len()
        invariant
            i <= local@.len(),
            first_shared_transport(local@, remote@) == first_shared_transport(
                local@.subrange(i as int, local@.len() as int),
                remote@,
            ),
        decreases local.len() - i,
    {
        let ghost rest = local@.subrange(i as int, local@.len() as int);
        assert(rest.drop_first() =~= local@.subrange(i + 1, local@.len() as int));
        let candidate = local[i];
        if candidate != TransportKind::BleControl && contains_transport(remote, candidate) {
            return Some(candidate);
        }
        i = i + 1;
    }
    assert(local@.subrange(local@.len() as int, local@.len() as int) =~= Seq::<TransportKind>::empty());
    None
}

impl TransferSession {
    pub fn new(invitation: Invitation, manifest: TransferManifest) -> (r: Result<Self, TransferError>)
        ensures
            match session_error(invitation, manifest) {
                Some(e) => r == Err::<Self, TransferError>(e),
                None => r == Ok::<Self, TransferError>(
                    TransferSession {
                        invitation,
                        manifest,
                        state: TransferState::AwaitingApproval,
                        negotiated_transport: None,
                        negotiated_chunk_bytes: None,
                        negotiated_resume: false,
                    },
                ),
            },
    {
        validate_invitation(&invitation)?;
        manifest.validate()?;
        Ok(TransferSession {
            invitation,
            manifest,
            state: TransferState::AwaitingApproval,
            negotiated_transport: None,
            negotiated_chunk_bytes: None,
            negotiated_resume: false,
        })
    }

    /// The receiver approves the invitation after comparing confirmation codes.
    pub fn approve(&mut self, confirmation_code: &str, now_unix_ms: u64) -> (r: Result<(), TransferError>)
        ensures
            r == outcome(approve_error(*old(self), confirmation_code@, now_unix_ms)),
            r is Ok ==> *final(self) == (TransferSession { state: TransferState::Negotiating, ..*old(self) }),
            r is Err ==> *final(self) == *old(self),
    {
        if !matches!(self.state, TransferState::AwaitingApproval) {
            return Err(TransferError::InvalidState);
        }
        if now_unix_ms > self.invitation.expires_at_unix_ms {
            return Err(TransferError::InvitationExpired);
        }
        if !crate::text::str_eq(confirmation_code, self.invitation.confirmation_code.as_str()) {
            return Err(TransferError::ConfirmationMismatch);
        }
        self.state = TransferState::Negotiating;
        Ok(())
    }

    /// Picks a bulk transport both peers offer and a chunk size all accept.
    pub fn negotiate(&mut self, local: &PeerCapabilities, remote: &PeerCapabilities) -> (r: Result<(), TransferError>)
        ensures
            r == outcome(negotiate_error(*old(self), *local, *remote)),
            r is Ok ==> *final(self) == negotiate_next(*old(self), *local, *remote),
            r is Err ==> *final(self) == *old(self),
    {
        if !matches!(self.state, TransferState::Negotiating) {
            return Err(TransferError::InvalidState);
        }
        if local.protocol_version != PROTOCOL_VERSION || remote.protocol_version != PROTOCOL_VERSION {
            return Err(TransferError::NoCompatibleProtocol);
        }
        let transport = match first_shared(&local.transports, &remote.transports) {
            Some(t) => t,
            None => return Err(TransferError::NoHighBandwidthTransport),
        };
        let mut chunk_bytes = self.manifest.chunk_size;
        if local.max_chunk_bytes < chunk_bytes {
            chunk_bytes = local.max_chunk_bytes;
        }
        if remote.max_chunk_bytes < chunk_bytes {
            chunk_bytes = remote.max_chunk_bytes;
        }
        if chunk_bytes < MIN_CHUNK_BYTES {
            return Err(TransferError::NoCompatibleChunkSize);
        }
        self.negotiated_transport = Some(transport);
        self.negotiated_chunk_bytes = Some(chunk_bytes);
        self.negotiated_resume = local.supports_resume && remote.supports_resume;
        self.state = TransferState::Transferring { acknowledged_bytes: 0 };
        Ok(())
    }

    /// Records that the receiver durably holds the first `contiguous_bytes`.
    pub fn acknowledge(&mut self, contiguous_bytes: u64) -> (r: Result<(), TransferError>)
        ensures
            r == outcome(acknowledge_error(*old(self), contiguous_bytes)),
            r is Ok ==> *final(self) == acknowledge_next(*old(self), contiguous_bytes),
            r is Err ==> *final(self) == *old(self),
    {
        let acknowledged_bytes = match self.state {
            TransferState::Transferring { acknowledged_bytes } => acknowledged_bytes,
            _ => return Err(TransferError::InvalidState),
        };
        if contiguous_bytes < acknowledged_bytes || contiguous_bytes > self.manifest.byte_length {
            return Err(TransferError::InvalidAcknowledgement);
        }
        self.state = if contiguous_bytes == self.manifest.byte_length {
            TransferState::Verifying
        } else {
            TransferState::Transferring { acknowledged_bytes: contiguous_bytes }
        };
        Ok(())
    }

    /// Publishes the transfer once the received length and digest match the manifest.
    pub fn finalize(&mut self, received_bytes: u64, sha256_hex: &str) -> (r: Result<(), TransferError>)
        ensures
            !(old(self).state is Verifying) ==> r == Err::<(), TransferError>(TransferError::InvalidState)
                && *final(self) == *old(self),
            old(self).state is Verifying && content_matches(*old(self), received_bytes, sha256_hex@) ==> r
                == Ok::<(), TransferError>(()) && *final(self) == (TransferSession {
                state: TransferState::Finalized,
                ..*old(self)
            }),
            old(self).state is Verifying && !content_matches(*old(self), received_bytes, sha256_hex@) ==> r
                == Err::<(), TransferError>(TransferError::ContentVerificationFailed) && (final(self).state matches TransferState::Failed {
                reason,
            } && reason@ == "content verification failed"@) && final(self).invitation == old(self).invitation
                && final(self).manifest == old(self).manifest && final(self).negotiated_transport == old(
                self,
            ).negotiated_transport && final(self).negotiated_chunk_bytes == old(self).negotiated_chunk_bytes
                && final(self).negotiated_resume == old(self).negotiated_resume,
    {
        if !matches!(self.state, TransferState::Verifying) {
            return Err(TransferError::InvalidState);
        }
        if received_bytes != self.manifest.byte_length || !eq_ignore_ascii_case(
            sha256_hex,
            self.manifest.sha256_hex.as_str(),
        ) {
            proof {
                reveal_strlit("content verification failed");
            }
            self.state = TransferState::Failed { reason: crate::text::owned("content verification failed") };
            return Err(TransferError::ContentVerificationFailed);
        }
        self.state = TransferState::Finalized;
        Ok(())
    }

    /// Abandons the transfer; a finalized or already cancelled one cannot be.
    pub fn cancel(&mut self) -> (r: Result<(), TransferError>)
        ensures
            cancellable(old(self).state) ==> r == Ok::<(), TransferError>(()) && *final(self) == (TransferSession {
                state: TransferState::Cancelled,
                ..*old(self)
            }),
            !cancellable(old(self).state) ==> r == Err::<(), TransferError>(TransferError::InvalidState)
                && *final(self) == *old(self),
    {
        if matches!(self.state, TransferState::Finalized) || matches!(self.state, TransferState::Cancelled) {
            return Err(TransferError::InvalidState);
        }
        self.state = TransferState::Cancelled;
        Ok(())
    }

    /// A received file may be finalized while the session verifies, and only
    /// for the session's own manifest.
    pub fn check_finalize(&self, received: &TransferManifest) -> (r: Result<(), TransferError>)
        ensures
            !(self.state is Verifying) ==> r == Err::<(), TransferError>(TransferError::InvalidState),
            self.state is Verifying && !crate::transport::same_manifest(*received, self.manifest) ==> r == Err::<
                (),
                TransferError,
            >(TransferError::ManifestMismatch),
            self.state is Verifying && crate::transport::same_manifest(*received, self.manifest) ==> r is Ok,
    {
        if !matches!(self.state, TransferState::Verifying) {
            return Err(TransferError::InvalidState);
        }
        if !crate::transport::manifests_equal(received, &self.manifest) {
            return Err(TransferError::ManifestMismatch);
        }
        Ok(())
    }

    /// Records why the transfer failed.
    pub fn mark_failed(&mut self, reason: String)
        ensures
            *final(self) == (TransferSession { state: TransferState::Failed { reason }, ..*old(self) }),
    {
        self.state = TransferState::Failed { reason };
    }

    /// The offset from which a resumed transfer continues.
    pub fn accept_resume_checkpoint(&self, checkpoint: &ResumeCheckpoint) -> (r: Result<u64, TransferError>)
        ensures
            match resume_checkpoint_error(*self, *checkpoint) {
                Some(e) => r == Err::<u64, TransferError>(e),
                None => r == Ok::<u64, TransferError>(checkpoint.persisted_bytes),
            },
    {
        if !matches!(self.state, TransferState::Transferring { .. }) {
            return Err(TransferError::InvalidState);
        }
        if !self.negotiated_resume || checkpoint.transfer_id != self.manifest.transfer_id
            || checkpoint.persisted_bytes > self.manifest.byte_length || !is_sha256_hex(
            checkpoint.prefix_sha256.as_str(),
        ) {
            return Err(TransferError::InvalidResumeCheckpoint);
        }
        Ok(checkpoint.persisted_bytes)
    }
}

// ---------------------------------------------------------------------------
// Laws of the session state machine.

/// An accepted acknowledgement never moves backward and never passes the end
/// of the asset; the session then records exactly the acknowledged count.
pub proof fn law_acknowledgement_is_monotone(s: TransferSession, contiguous_bytes: u64)
    requires
        acknowledge_error(s, contiguous_bytes) is None,
    ensures
        s.state matches TransferState::Transferring { acknowledged_bytes } && acknowledged_bytes <= contiguous_bytes
            <= s.manifest.byte_length,
        acknowledge_next(s, contiguous_bytes).state matches TransferState::Transferring { acknowledged_bytes }
            ==> acknowledged_bytes == contiguous_bytes,
        acknowledge_next(s, contiguous_bytes).state is Verifying <==> contiguous_bytes == s.manifest.byte_length,
{
}

/// Finalized and cancelled sessions accept no further step.
pub proof fn law_terminal_states_absorb(
    s: TransferSession,
    code: Seq<char>,
    now_unix_ms: u64,
    local: PeerCapabilities,
    remote: PeerCapabilities,
    contiguous_bytes: u64,
)
    requires
        s.state is Finalized || s.state is Cancelled,
    ensures
        approve_error(s, code, now_unix_ms) == Some(TransferError::InvalidState),
        negotiate_error(s, local, remote) == Some(TransferError::InvalidState),
        acknowledge_error(s, contiguous_bytes) == Some(TransferError::InvalidState),
        !cancellable(s.state),
        resume_checkpoint_error(s, ResumeCheckpoint { transfer_id: s.manifest.transfer_id, persisted_bytes: 0, prefix_sha256: s.manifest.sha256_hex }) == Some(TransferError::InvalidState),
{
}

/// No step other than a verified `finalize` yields a finalized session:
/// approval leads to negotiation, negotiation to transfer, acknowledgement to
/// transfer or verification, and cancellation to a cancelled session.
pub proof fn law_only_verification_finalizes(
    s: TransferSession,
    local: PeerCapabilities,
    remote: PeerCapabilities,
    contiguous_bytes: u64,
)
    ensures
        negotiate_next(s, local, remote).state is Transferring,
        acknowledge_next(s, contiguous_bytes).state is Transferring || acknowledge_next(s, contiguous_bytes).state is Verifying,
{
}

proof fn lemma_first_shared_transport(local: Seq<TransportKind>, remote: Seq<TransportKind>)
    ensures
        first_shared_transport(local, remote) matches Some(t) ==> t != TransportKind::BleControl && local.contains(t)
            && remote.contains(t),
        first_shared_transport(local, remote) is None ==> forall|i: int|
            0 <= i < local.len() && #[trigger] local[i] != TransportKind::BleControl ==> !remote.contains(local[i]),
    decreases local.len(),
{
    if local.len() > 0 {
        lemma_first_shared_transport(local.drop_first(), remote);
        if let Some(t) = first_shared_transport(local, remote) {
            if t != local[0] {
                let k = choose|k: int| 0 <= k < local.drop_first().len() && local.drop_first()[k] == t;
                assert(local[k + 1] == t);
            }
        } else {
            assert forall|i: int| 0 <= i < local.len() && #[trigger] local[i] != TransportKind::BleControl implies !remote.contains(local[i]) by {
                if i > 0 {
                    assert(local[i] == local.drop_first()[i - 1]);
                }
            }
        }
    }
}

/// A successful negotiation uses a bulk transport that both peers offer (never
/// the BLE control channel) and a chunk size within the policy floor and every
/// party's limit; resume is on only when both peers support it.
pub proof fn law_negotiation_is_mutual(s: TransferSession, local: PeerCapabilities, remote: PeerCapabilities)
    requires
        negotiate_error(s, local, remote) is None,
    ensures
        negotiate_next(s, local, remote).negotiated_transport matches Some(t) && t != TransportKind::BleControl
            && local.transports@.contains(t) && remote.transports@.contains(t),
        negotiate_next(s, local, remote).negotiated_chunk_bytes matches Some(c) && MIN_CHUNK_BYTES <= c && c
            <= s.manifest.chunk_size && c <= local.max_chunk_bytes && c <= remote.max_chunk_bytes,
        negotiate_next(s, local, remote).negotiated_resume ==> local.supports_resume && remote.supports_resume,
{
    lemma_first_shared_transport(local.transports@, remote.transports@);
}

/// A transfer can only be approved before the invitation expires and with the
/// confirmation code the invitation carries.
pub proof fn law_approval_requires_matching_code(s: TransferSession, code: Seq<char>, now_unix_ms: u64)
    requires
        approve_error(s, code, now_unix_ms) is None,
    ensures
        s.state is AwaitingApproval,
        code == s.invitation.confirmation_code@,
        now_unix_ms <= s.invitation.expires_at_unix_ms,
{
}

} // verus!
