//! Session keys: ephemeral key agreement, the confirmation code both peers
//! compare, and the authenticated encryption of transfer chunks.
use vstd::prelude::*;
use vstd::string::*;
use vstd::utf8::encode_utf8;
use chacha20poly1305::aead::{Aead, KeyInit, Payload};
use chacha20poly1305::{ChaCha20Poly1305, Key, Nonce};
use hkdf::Hkdf;
use sha2::Sha256;
use x25519_dalek::{PublicKey, StaticSecret};
use crate::bytes::{be32, extend_range};
use crate::crypto::{sha256, sha256_of};
use crate::text::{decimal, digit_char, padded_decimal, push_padded, str_eq};
use crate::transfer::{
    EphemeralPublicKey, Invitation, TransferError, TransferManifest, MAX_CHUNK_BYTES, PROTOCOL_VERSION,
    invitation_valid, manifest_error, safe_token, safe_token_text, six_digit_text, is_six_digits, validate_invitation,
};
use crate::wire::{EncryptedChunk, u16_be, u32_be, u64_be};

verus! {

// ---------------------------------------------------------------------------
// Outside primitives.

/// The X25519 public key of a secret scalar.
pub uninterp spec fn x25519_public_of(secret: Seq<u8>) -> Seq<u8>;

/// The X25519 shared secret of a secret scalar and a peer's public key.
pub uninterp spec fn x25519_shared_of(secret: Seq<u8>, peer_public: Seq<u8>) -> Seq<u8>;

/// HKDF-SHA256 output keying material of the given length.
pub uninterp spec fn hkdf_sha256_of(salt: Seq<u8>, ikm: Seq<u8>, info: Seq<u8>, length: nat) -> Seq<u8>;

/// ChaCha20-Poly1305 ciphertext (with its 16-byte tag) of a message.
pub uninterp spec fn chacha_sealed_of(key: Seq<u8>, nonce: Seq<u8>, aad: Seq<u8>, message: Seq<u8>) -> Seq<u8>;

/// ChaCha20-Poly1305 plaintext of a ciphertext, if it authenticates.
pub uninterp spec fn chacha_opened_of(key: Seq<u8>, nonce: Seq<u8>, aad: Seq<u8>, ciphertext: Seq<u8>) -> Option<Seq<u8>>;

/// X25519 public key (`PublicKey::from(&StaticSecret::from(secret))`): a
/// function of the secret alone.
#[verifier::external_body]
fn x25519_public(secret: [u8; 32]) -> (r: [u8; 32])
    ensures
        r@ == x25519_public_of(secret@),
{
    PublicKey::from(&StaticSecret::from(secret)).to_bytes()
}

/// X25519 key agreement (`StaticSecret::diffie_hellman`): a function of the
/// secret and the peer key; two parties obtain the same value, each from its
/// own secret and the other's public key (as the crate documents).
#[verifier::external_body]
fn x25519_shared(secret: [u8; 32], peer_public: [u8; 32]) -> (r: [u8; 32])
    ensures
        r@ == x25519_shared_of(secret@, peer_public@),
        forall|other: Seq<u8>| other.len() == 32 && peer_public@ == x25519_public_of(other) ==> r@ == x25519_shared_of(
            other,
            x25519_public_of(secret@),
        ),
{
    StaticSecret::from(secret).diffie_hellman(&PublicKey::from(peer_public)).to_bytes()
}

/// HKDF-SHA256 extract and expand (`Hkdf::<Sha256>::new`, `expand`) to 48
/// bytes, a length the expansion always accepts.
#[verifier::external_body]
fn hkdf_sha256_48(salt: &[u8], ikm: &[u8], info: &[u8]) -> (r: [u8; 48])
    ensures
        r@ == hkdf_sha256_of(salt@, ikm@, info@, 48),
{
    let mut output = [0u8; 48];
    let _ = Hkdf::<Sha256>::new(Some(salt), ikm).expand(info, &mut output);
    output
}

/// ChaCha20-Poly1305 encryption (`Aead::encrypt`): the ciphertext is the
/// message's length plus a 16-byte tag; messages of chunk size never fail.
#[verifier::external_body]
fn chacha_seal(key: &[u8; 32], nonce: &[u8; 12], aad: &[u8], message: &[u8]) -> (r: Vec<u8>)
    requires
        message@.len() <= MAX_CHUNK_BYTES,
    ensures
        r@ == chacha_sealed_of(key@, nonce@, aad@, message@),
        r@.len() == message@.len() + 16,
{
    let cipher = ChaCha20Poly1305::new(Key::from_slice(key));
    cipher.encrypt(Nonce::from_slice(nonce), Payload { msg: message, aad }).unwrap()
}

/// ChaCha20-Poly1305 decryption (`Aead::decrypt`): the plaintext when the
/// ciphertext authenticates under the key, nonce and associated data; a
/// ciphertext sealed from a message opens to that message.
#[verifier::external_body]
fn chacha_open(key: &[u8; 32], nonce: &[u8; 12], aad: &[u8], ciphertext: &[u8]) -> (r: Option<Vec<u8>>)
    ensures
        r is Some <==> chacha_opened_of(key@, nonce@, aad@, ciphertext@) is Some,
        r matches Some(v) ==> chacha_opened_of(key@, nonce@, aad@, ciphertext@) == Some(v@),
        forall|m: Seq<u8>| ciphertext@ == chacha_sealed_of(key@, nonce@, aad@, m) ==> r is Some && r->0@ == m,
{
    let cipher = ChaCha20Poly1305::new(Key::from_slice(key));
    cipher.decrypt(Nonce::from_slice(nonce), Payload { msg: ciphertext, aad }).ok()
}

/// 32 bytes from the platform's secure random source (`getrandom`), or
/// `None` when it is unavailable. Nothing is claimed of the bytes.
#[verifier::external_body]
fn secure_random_32() -> (r: Option<[u8; 32]>) {
    let mut bytes = [0u8; 32];
    match getrandom::getrandom(&mut bytes) {
        Ok(()) => Some(bytes),
        Err(_) => None,
    }
}

// ---------------------------------------------------------------------------
// Byte helpers.

pub open spec fn all_zero(b: Seq<u8>) -> bool {
    forall|i: int| 0 <= i < b.len() ==> b[i] == 0
}

fn is_all_zero(b: &[u8]) -> (r: bool)
    ensures
        r == all_zero(b@),
{
    let mut i: usize = 0;
    while i < b.len()
        invariant
            i <= b@.len(),
            forall|k: int| 0 <= k < i ==> b@[k] == 0,
        decreases b.len() - i,
    {
        if b[i] != 0 {
            return false;
        }
        i = i + 1;
    }
    true
}

/// Lexicographic order of byte strings.
pub open spec fn bytes_lt(a: Seq<u8>, b: Seq<u8>) -> bool
    decreases a.len(),
{
    if a.len() == 0 {
        b.len() > 0
    } else if b.len() == 0 {
        false
    } else if a[0] != b[0] {
        a[0] < b[0]
    } else {
        bytes_lt(a.drop_first(), b.drop_first())
    }
}

fn bytes_before(a: &[u8; 32], b: &[u8; 32]) -> (r: bool)
    ensures
        r == bytes_lt(a@, b@),
{
    let mut i: usize = 0;
    assert(a@.subrange(0, 32) =~= a@);
    assert(b@.subrange(0, 32) =~= b@);
    while i < 32 && a[i] == b[i]
        invariant
            i <= 32,
            a@.len() == 32,
            b@.len() == 32,
            bytes_lt(a@, b@) == bytes_lt(a@.subrange(i as int, 32), b@.subrange(i as int, 32)),
        decreases 32 - i,
    {
        assert(a@.subrange(i as int, 32).drop_first() =~= a@.subrange(i + 1, 32));
        assert(b@.subrange(i as int, 32).drop_first() =~= b@.subrange(i + 1, 32));
        i = i + 1;
    }
    if i == 32 {
        return false;
    }
    a[i] < b[i]
}

/// The two public keys in ascending order.
pub open spec fn ordered_keys(a: Seq<u8>, b: Seq<u8>) -> (Seq<u8>, Seq<u8>) {
    if bytes_lt(b, a) {
        (b, a)
    } else {
        (a, b)
    }
}

fn push_all(out: &mut Vec<u8>, b: &[u8])
    ensures
        final(out)@ == old(out)@ + b@,
{
    extend_range(out, b, 0, b.len());
    assert(b@.subrange(0, b@.len() as int) =~= b@);
}

fn push_u64(out: &mut Vec<u8>, v: u64)
    ensures
        final(out)@ == old(out)@ + u64_be(v),
{
    let ghost start = out@;
    let hi = (v >> 32u64) as u32;
    let lo = v as u32;
    out.push((hi >> 24u32) as u8);
    out.push((hi >> 16u32) as u8);
    out.push((hi >> 8u32) as u8);
    out.push(hi as u8);
    out.push((lo >> 24u32) as u8);
    out.push((lo >> 16u32) as u8);
    out.push((lo >> 8u32) as u8);
    out.push(lo as u8);
    assert(out@ =~= start + u64_be(v));
}

// ---------------------------------------------------------------------------
// Key agreement and the confirmation code.

pub struct EphemeralKeyPair {
    secret: [u8; 32],
    public: EphemeralPublicKey,
}

pub struct AgreedSessionSecrets {
    chunk_key: [u8; 32],
    nonce_prefix: [u8; 16],
}

/// What both peers hash into the confirmation code.
pub open spec fn confirmation_input(
    shared: Seq<u8>,
    own_public: Seq<u8>,
    peer_public: Seq<u8>,
    invitation_id: Seq<char>,
    sender_ephemeral_id: Seq<char>,
    m: TransferManifest,
) -> Seq<u8> {
    let keys = ordered_keys(own_public, peer_public);
    encode_utf8("ufc-peer-confirmation-v1"@) + shared + keys.0 + keys.1 + encode_utf8(invitation_id) + encode_utf8(
        sender_ephemeral_id,
    ) + encode_utf8(m.transfer_id@) + encode_utf8(m.sha256_hex@) + u64_be(m.byte_length)
}

/// Six decimal digits of a digest.
pub open spec fn code_of_digest(d: Seq<u8>) -> Seq<char> {
    padded_decimal((be32(d, 0) % 1_000_000) as nat, 6)
}

/// Six characters, each an ASCII decimal digit.
pub open spec fn six_digits(c: Seq<char>) -> bool {
    c.len() == 6 && forall|k: int| 0 <= k < 6 ==> '0' <= #[trigger] c[k] && c[k] <= '9'
}

/// Ten to the power `w`.
pub open spec fn ten_to(w: nat) -> nat
    decreases w,
{
    if w == 0 {
        1
    } else {
        10 * ten_to((w - 1) as nat)
    }
}

proof fn lemma_decimal_digits(n: nat)
    ensures
        decimal(n).len() >= 1,
        forall|k: int| 0 <= k < decimal(n).len() ==> '0' <= #[trigger] decimal(n)[k] && decimal(n)[k] <= '9',
    decreases n,
{
    assert(('0' as int) == 48 && ('9' as int) == 57);
    if n < 10 {
        assert(decimal(n)[0] == digit_char(n));
    } else {
        lemma_decimal_digits(n / 10);
        let d = decimal(n / 10);
        assert forall|k: int| 0 <= k < decimal(n).len() implies '0' <= #[trigger] decimal(n)[k] && decimal(n)[k] <= '9' by {
            if k < d.len() {
                assert(decimal(n)[k] == d[k]);
            } else {
                assert(decimal(n)[k] == digit_char(n % 10));
            }
        }
    }
}

proof fn lemma_decimal_len(n: nat, w: nat)
    requires
        n < ten_to(w),
        w >= 1,
    ensures
        decimal(n).len() <= w,
    decreases w,
{
    if n >= 10 {
        if w == 1 {
            assert(ten_to(1) == 10 * ten_to(0));
        } else {
            let q = ten_to((w - 1) as nat);
            assert(n / 10 < q) by (nonlinear_arith)
                requires
                    n < 10 * q,
            ;
            lemma_decimal_len(n / 10, (w - 1) as nat);
        }
    }
}

/// A confirmation code is six decimal digits, whatever digest it comes from.
pub proof fn law_confirmation_code_is_six_digits(d: Seq<u8>)
    ensures
        six_digits(code_of_digest(d)),
{
    let v = (be32(d, 0) % 1_000_000) as nat;
    assert(ten_to(6) == 1_000_000) by {
        reveal_with_fuel(ten_to, 7);
    }
    lemma_decimal_len(v, 6);
    lemma_decimal_digits(v);
    let t = decimal(v);
    let c = padded_decimal(v, 6);
    if t.len() < 6 {
        assert(c == Seq::new((6 - t.len()) as nat, |i: int| '0') + t);
        assert forall|k: int| 0 <= k < 6 implies '0' <= #[trigger] c[k] && c[k] <= '9' by {
            if k >= 6 - t.len() {
                assert(c[k] == t[k - (6 - t.len())]);
            }
        }
    } else {
        assert(c == t);
    }
}

/// The confirmation code a key holder computes, or why it refuses.
pub open spec fn confirmation_outcome(
    secret: Seq<u8>,
    own_public: Seq<u8>,
    peer_public: Seq<u8>,
    invitation_id: Seq<char>,
    sender_ephemeral_id: Seq<char>,
    m: TransferManifest,
) -> Result<Seq<char>, TransferError> {
    if manifest_error(m) is Some {
        Err(manifest_error(m)->0)
    } else if !safe_token_text(invitation_id) || !safe_token_text(sender_ephemeral_id) || peer_public == own_public
        || all_zero(peer_public) {
        Err(TransferError::InvalidEphemeralKey)
    } else if all_zero(x25519_shared_of(secret, peer_public)) {
        Err(TransferError::InvalidEphemeralKey)
    } else {
        Ok(
            code_of_digest(
                sha256_of(
                    confirmation_input(
                        x25519_shared_of(secret, peer_public),
                        own_public,
                        peer_public,
                        invitation_id,
                        sender_ephemeral_id,
                        m,
                    ),
                ),
            ),
        )
    }
}

/// The handshake salt.
pub open spec fn handshake_salt_input(invitation: Invitation, code: Seq<char>) -> Seq<u8> {
    encode_utf8("ufc-peer-handshake-salt-v1"@) + encode_utf8(invitation.invitation_id@) + encode_utf8(
        invitation.sender.ephemeral_id@,
    ) + encode_utf8(code)
}

/// The key-derivation context.
pub open spec fn session_info(own_public: Seq<u8>, peer_public: Seq<u8>, m: TransferManifest) -> Seq<u8> {
    let keys = ordered_keys(own_public, peer_public);
    encode_utf8("ufc-peer-session-v1"@) + keys.0 + keys.1 + encode_utf8(m.transfer_id@) + encode_utf8(m.sha256_hex@)
        + u64_be(m.byte_length)
}

/// The 48 bytes of session key material both peers derive.
pub open spec fn session_material(
    secret: Seq<u8>,
    own_public: Seq<u8>,
    peer_public: Seq<u8>,
    invitation: Invitation,
    code: Seq<char>,
    m: TransferManifest,
) -> Seq<u8> {
    hkdf_sha256_of(
        sha256_of(handshake_salt_input(invitation, code)),
        x25519_shared_of(secret, peer_public),
        session_info(own_public, peer_public, m),
        48,
    )
}

/// Why key agreement refuses, in the order the checks are made.
pub open spec fn agreement_error(
    secret: Seq<u8>,
    own_public: Seq<u8>,
    peer_public: Seq<u8>,
    invitation: Invitation,
    code: Seq<char>,
    m: TransferManifest,
) -> Option<TransferError> {
    if !invitation_valid(invitation) {
        Some(TransferError::InvalidInvitation)
    } else if manifest_error(m) is Some {
        manifest_error(m)
    } else {
        match confirmation_outcome(
            secret,
            own_public,
            peer_public,
            invitation.invitation_id@,
            invitation.sender.ephemeral_id@,
            m,
        ) {
            Err(e) => Some(e),
            Ok(expected) => if code != expected || code != invitation.confirmation_code@ || !six_digit_text(code) {
                Some(TransferError::KeyAgreementContextMismatch)
            } else {
                None
            },
        }
    }
}

impl EphemeralKeyPair {
    pub closed spec fn spec_secret(&self) -> Seq<u8> {
        self.secret@
    }

    pub closed spec fn spec_public(&self) -> Seq<u8> {
        self.public.bytes@
    }

    /// A one-session key pair from 32 bytes of a platform CSPRNG.
    pub fn from_secret_bytes(secret_bytes: [u8; 32]) -> (r: Result<Self, TransferError>)
        ensures
            all_zero(secret_bytes@) ==> (r matches Err(e) && e == TransferError::InvalidEphemeralKey),
            !all_zero(secret_bytes@) ==> (r matches Ok(k) && k.spec_secret() == secret_bytes@ && k.spec_public()
                == x25519_public_of(secret_bytes@)),
    {
        if is_all_zero(secret_bytes.as_slice()) {
            return Err(TransferError::InvalidEphemeralKey);
        }
        let public = EphemeralPublicKey { bytes: x25519_public(secret_bytes) };
        Ok(EphemeralKeyPair { secret: secret_bytes, public })
    }

    /// A fresh key pair from the platform's secure random source.
    pub fn generate() -> (r: Result<Self, TransferError>)
        ensures
            r matches Ok(k) ==> !all_zero(k.spec_secret()) && k.spec_public() == x25519_public_of(k.spec_secret()),
            r matches Err(e) ==> e == TransferError::SecureRandomFailed || e == TransferError::InvalidEphemeralKey,
    {
        match secure_random_32() {
            None => Err(TransferError::SecureRandomFailed),
            Some(bytes) => Self::from_secret_bytes(bytes),
        }
    }

    pub fn public_key(&self) -> (r: EphemeralPublicKey)
        ensures
            r.bytes@ == self.spec_public(),
    {
        self.public
    }

    /// Six digits shown on both peers after public-key exchange.
    pub fn confirmation_code(
        &self,
        peer_public: EphemeralPublicKey,
        invitation_id: &str,
        sender_ephemeral_id: &str,
        manifest: &TransferManifest,
    ) -> (r: Result<String, TransferError>)
        ensures
            match confirmation_outcome(
                self.spec_secret(),
                self.spec_public(),
                peer_public.bytes@,
                invitation_id@,
                sender_ephemeral_id@,
                *manifest,
            ) {
                Ok(c) => r matches Ok(s) && s@ == c,
                Err(e) => r matches Err(x) && x == e,
            },
            r matches Ok(s) ==> six_digits(s@),
            r is Ok ==> forall|other: Seq<u8>|
                other.len() == 32 && peer_public.bytes@ == x25519_public_of(other) ==> x25519_shared_of(self.spec_secret(), peer_public.bytes@)
                    == #[trigger] x25519_shared_of(other, x25519_public_of(self.spec_secret())),
    {
        manifest.validate()?;
        let own = self.public.bytes;
        let peer = peer_public.bytes;
        if !safe_token(invitation_id) || !safe_token(sender_ephemeral_id) || !bytes_differ(&own, &peer)
            || is_all_zero(peer.as_slice()) {
            return Err(TransferError::InvalidEphemeralKey);
        }
        let shared = x25519_shared(self.secret, peer);
        if is_all_zero(shared.as_slice()) {
            return Err(TransferError::InvalidEphemeralKey);
        }
        let mut input: Vec<u8> = Vec::new();
        push_all(&mut input, "ufc-peer-confirmation-v1".as_bytes());
        push_all(&mut input, shared.as_slice());
        push_ordered_keys(&mut input, &own, &peer);
        push_all(&mut input, invitation_id.as_bytes());
        push_all(&mut input, sender_ephemeral_id.as_bytes());
        push_all(&mut input, manifest.transfer_id.as_str().as_bytes());
        push_all(&mut input, manifest.sha256_hex.as_str().as_bytes());
        push_u64(&mut input, manifest.byte_length);
        let digest = sha256(input.as_slice());
        let value = ((digest[0] as u32) * 0x100_0000 + (digest[1] as u32) * 0x1_0000 + (digest[2] as u32) * 0x100
            + digest[3] as u32) % 1_000_000;
        let mut code = String::new();
        push_padded(&mut code, value as u64, 6);
        proof {
            law_confirmation_code_is_six_digits(digest@);
        }
        Ok(code)
    }

    /// Derives the chunk keys once both peers confirmed the same code.
    pub fn agree(
        self,
        peer_public: EphemeralPublicKey,
        invitation: &Invitation,
        confirmation_code: &str,
        manifest: &TransferManifest,
    ) -> (r: Result<AgreedSessionSecrets, TransferError>)
        ensures
            match agreement_error(
                self.spec_secret(),
                self.spec_public(),
                peer_public.bytes@,
                *invitation,
                confirmation_code@,
                *manifest,
            ) {
                Some(e) => r matches Err(x) && x == e,
                None => r matches Ok(s) && s.spec_key() + s.spec_nonce_prefix() == session_material(
                    self.spec_secret(),
                    self.spec_public(),
                    peer_public.bytes@,
                    *invitation,
                    confirmation_code@,
                    *manifest,
                ),
            },
    {
        validate_invitation(invitation)?;
        manifest.validate()?;
        let expected = self.confirmation_code(
            peer_public,
            invitation.invitation_id.as_str(),
            invitation.sender.ephemeral_id.as_str(),
            manifest,
        )?;
        if !str_eq(confirmation_code, expected.as_str()) || !str_eq(
            confirmation_code,
            invitation.confirmation_code.as_str(),
        ) || !is_six_digits(confirmation_code) {
            return Err(TransferError::KeyAgreementContextMismatch);
        }
        let own = self.public.bytes;
        let peer = peer_public.bytes;
        let shared = x25519_shared(self.secret, peer);
        let mut salt_input: Vec<u8> = Vec::new();
        push_all(&mut salt_input, "ufc-peer-handshake-salt-v1".as_bytes());
        push_all(&mut salt_input, invitation.invitation_id.as_str().as_bytes());
        push_all(&mut salt_input, invitation.sender.ephemeral_id.as_str().as_bytes());
        push_all(&mut salt_input, confirmation_code.as_bytes());
        let salt = sha256(salt_input.as_slice());
        let mut info: Vec<u8> = Vec::new();
        push_all(&mut info, "ufc-peer-session-v1".as_bytes());
        push_ordered_keys(&mut info, &own, &peer);
        push_all(&mut info, manifest.transfer_id.as_str().as_bytes());
        push_all(&mut info, manifest.sha256_hex.as_str().as_bytes());
        push_u64(&mut info, manifest.byte_length);
        let output = hkdf_sha256_48(salt.as_slice(), shared.as_slice(), info.as_slice());
        let mut chunk_key = [0u8; 32];
        let mut nonce_prefix = [0u8; 16];
        let mut i: usize = 0;
        while i < 32
            invariant
                i <= 32,
                chunk_key@.len() == 32,
                forall|k: int| 0 <= k < i ==> chunk_key@[k] == output@[k],
            decreases 32 - i,
        {
            chunk_key[i] = output[i];
            i = i + 1;
        }
        let mut j: usize = 0;
        while j < 16
            invariant
                j <= 16,
                nonce_prefix@.len() == 16,
                forall|k: int| 0 <= k < j ==> nonce_prefix@[k] == output@[32 + k],
            decreases 16 - j,
        {
            nonce_prefix[j] = output[32 + j];
            j = j + 1;
        }
        assert(chunk_key@ + nonce_prefix@ =~= output@);
        Ok(AgreedSessionSecrets { chunk_key, nonce_prefix })
    }
}

fn bytes_differ(a: &[u8; 32], b: &[u8; 32]) -> (r: bool)
    ensures
        r == (a@ != b@),
{
    let mut i: usize = 0;
    while i < 32
        invariant
            i <= 32,
            a@.len() == 32,
            b@.len() == 32,
            forall|k: int| 0 <= k < i ==> a@[k] == b@[k],
        decreases 32 - i,
    {
        if a[i] != b[i] {
            return true;
        }
        i = i + 1;
    }
    assert(a@ =~= b@);
    false
}

fn push_ordered_keys(out: &mut Vec<u8>, own: &[u8; 32], peer: &[u8; 32])
    ensures
        final(out)@ == old(out)@ + ordered_keys(own@, peer@).0 + ordered_keys(own@, peer@).1,
{
    if bytes_before(peer, own) {
        push_all(out, peer.as_slice());
        push_all(out, own.as_slice());
    } else {
        push_all(out, own.as_slice());
        push_all(out, peer.as_slice());
    }
}

impl AgreedSessionSecrets {
    pub closed spec fn spec_key(&self) -> Seq<u8> {
        self.chunk_key@
    }

    pub closed spec fn spec_nonce_prefix(&self) -> Seq<u8> {
        self.nonce_prefix@
    }

    pub fn into_chunk_codec(self, manifest: &TransferManifest) -> (r: Result<EncryptedChunkCodec, TransferError>)
        ensures
            match manifest_error(*manifest) {
                Some(e) => r matches Err(x) && x == e,
                None => r matches Ok(c) && c.wf() && c.spec_key() == self.spec_key() && c.spec_nonce_prefix()
                    == self.spec_nonce_prefix() && c.spec_transfer_id() == manifest.transfer_id@ && c.spec_total()
                    == manifest.byte_length,
            },
    {
        EncryptedChunkCodec::new(self.chunk_key, self.nonce_prefix, manifest)
    }
}

// ---------------------------------------------------------------------------
// Chunk encryption.

pub struct EncryptedChunkCodec {
    key: [u8; 32],
    nonce_prefix: [u8; 16],
    transfer_id: String,
    total_plaintext_bytes: u64,
}

/// A chunk range lies inside the asset and is at most one maximal chunk.
pub open spec fn range_valid(total: u64, offset: u64, length: int) -> bool {
    0 < length <= MAX_CHUNK_BYTES && offset + length <= total
}

/// The data a chunk's authentication covers besides the plaintext.
pub open spec fn chunk_aad(transfer_id: Seq<char>, total: u64, offset: u64, plaintext_bytes: u32) -> Seq<u8> {
    encode_utf8("ufc-peer-chunk-v1"@) + u16_be(PROTOCOL_VERSION) + u16_be(encode_utf8(transfer_id).len() as u16)
        + encode_utf8(transfer_id) + u64_be(offset) + u32_be(plaintext_bytes) + u64_be(total)
}

/// The nonce of a chunk: bound to the key, the session, the offset and the
/// plaintext's digest.
pub open spec fn chunk_nonce(key: Seq<u8>, prefix: Seq<u8>, transfer_id: Seq<char>, offset: u64, plaintext: Seq<u8>) -> Seq<u8> {
    sha256_of(
        encode_utf8("ufc-peer-chunk-nonce-v1"@) + key + prefix + encode_utf8(transfer_id) + u64_be(offset) + sha256_of(
            plaintext,
        ),
    ).subrange(0, 12)
}

impl EncryptedChunkCodec {
    pub closed spec fn spec_key(&self) -> Seq<u8> {
        self.key@
    }

    pub closed spec fn spec_nonce_prefix(&self) -> Seq<u8> {
        self.nonce_prefix@
    }

    pub closed spec fn spec_transfer_id(&self) -> Seq<char> {
        self.transfer_id@
    }

    pub closed spec fn spec_total(&self) -> u64 {
        self.total_plaintext_bytes
    }

    pub closed spec fn wf(&self) -> bool {
        crate::transfer::safe_media_token_text(self.transfer_id@)
    }

    pub fn new(key: [u8; 32], nonce_prefix: [u8; 16], manifest: &TransferManifest) -> (r: Result<Self, TransferError>)
        ensures
            match manifest_error(*manifest) {
                Some(e) => r matches Err(x) && x == e,
                None => r matches Ok(c) && c.wf() && c.spec_key() == key@ && c.spec_nonce_prefix() == nonce_prefix@
                    && c.spec_transfer_id() == manifest.transfer_id@ && c.spec_total() == manifest.byte_length,
            },
    {
        manifest.validate()?;
        Ok(EncryptedChunkCodec {
            key,
            nonce_prefix,
            transfer_id: manifest.transfer_id.clone(),
            total_plaintext_bytes: manifest.byte_length,
        })
    }

    pub fn transfer_id(&self) -> (r: &str)
        ensures
            r@ == self.spec_transfer_id(),
    {
        self.transfer_id.as_str()
    }

    pub fn total_plaintext_bytes(&self) -> (r: u64)
        ensures
            r == self.spec_total(),
    {
        self.total_plaintext_bytes
    }

    fn validate_range(&self, offset: u64, length: usize) -> (r: Result<(), TransferError>)
        ensures
            range_valid(self.spec_total(), offset, length as int) ==> r is Ok,
            !range_valid(self.spec_total(), offset, length as int) ==> (r matches Err(e) && e
                == TransferError::InvalidEncryptedChunk),
    {
        if length == 0 || length > MAX_CHUNK_BYTES as usize {
            return Err(TransferError::InvalidEncryptedChunk);
        }
        match offset.checked_add(length as u64) {
            Some(end) => if end <= self.total_plaintext_bytes {
                Ok(())
            } else {
                Err(TransferError::InvalidEncryptedChunk)
            },
            None => Err(TransferError::InvalidEncryptedChunk),
        }
    }

    fn derive_nonce(&self, offset: u64, plaintext: &[u8]) -> (r: [u8; 12])
        ensures
            r@ == chunk_nonce(self.spec_key(), self.spec_nonce_prefix(), self.spec_transfer_id(), offset, plaintext@),
    {
        let mut input: Vec<u8> = Vec::new();
        push_all(&mut input, "ufc-peer-chunk-nonce-v1".as_bytes());
        push_all(&mut input, self.key.as_slice());
        push_all(&mut input, self.nonce_prefix.as_slice());
        push_all(&mut input, self.transfer_id.as_str().as_bytes());
        push_u64(&mut input, offset);
        let inner = sha256(plaintext);
        push_all(&mut input, inner.as_slice());
        let digest = sha256(input.as_slice());
        let nonce = [
            digest[0],
            digest[1],
            digest[2],
            digest[3],
            digest[4],
            digest[5],
            digest[6],
            digest[7],
            digest[8],
            digest[9],
            digest[10],
            digest[11],
        ];
        assert(nonce@ =~= digest@.subrange(0, 12));
        nonce
    }

    fn aad(&self, offset: u64, plaintext_bytes: u32) -> (r: Vec<u8>)
        requires
            encode_utf8(self.spec_transfer_id()).len() <= 0xffff,
        ensures
            r@ == chunk_aad(self.spec_transfer_id(), self.spec_total(), offset, plaintext_bytes),
    {
        let id = self.transfer_id.as_str().as_bytes();
        let mut aad: Vec<u8> = Vec::new();
        push_all(&mut aad, "ufc-peer-chunk-v1".as_bytes());
        let ghost a = aad@;
        aad.push((PROTOCOL_VERSION >> 8u16) as u8);
        aad.push(PROTOCOL_VERSION as u8);
        let n = id.len() as u16;
        aad.push((n >> 8u16) as u8);
        aad.push(n as u8);
        assert(aad@ =~= a + u16_be(PROTOCOL_VERSION) + u16_be(n));
        push_all(&mut aad, id);
        push_u64(&mut aad, offset);
        let ghost b = aad@;
        aad.push((plaintext_bytes >> 24u32) as u8);
        aad.push((plaintext_bytes >> 16u32) as u8);
        aad.push((plaintext_bytes >> 8u32) as u8);
        aad.push(plaintext_bytes as u8);
        assert(aad@ =~= b + u32_be(plaintext_bytes));
        push_u64(&mut aad, self.total_plaintext_bytes);
        aad
    }
}

fn same_nonce(a: &[u8; 12], b: &[u8; 12]) -> (r: bool)
    ensures
        r == (a@ == b@),
{
    let mut i: usize = 0;
    while i < 12
        invariant
            i <= 12,
            a@.len() == 12,
            b@.len() == 12,
            forall|k: int| 0 <= k < i ==> a@[k] == b@[k],
        decreases 12 - i,
    {
        if a[i] != b[i] {
            return false;
        }
        i = i + 1;
    }
    assert(a@ =~= b@);
    true
}

/// What decrypting a chunk yields, or why it is refused.
pub open spec fn decrypt_outcome(
    key: Seq<u8>,
    prefix: Seq<u8>,
    transfer_id: Seq<char>,
    total: u64,
    chunk: EncryptedChunk,
) -> Result<Seq<u8>, TransferError> {
    let aad = chunk_aad(transfer_id, total, chunk.offset, chunk.plaintext_bytes);
    if chunk.transfer_id@ != transfer_id || chunk.plaintext_bytes == 0 || chunk.plaintext_bytes > MAX_CHUNK_BYTES
        || chunk.ciphertext@.len() != chunk.plaintext_bytes + 16 {
        Err(TransferError::InvalidEncryptedChunk)
    } else if !range_valid(total, chunk.offset, chunk.plaintext_bytes as int) {
        Err(TransferError::InvalidEncryptedChunk)
    } else {
        match chacha_opened_of(key, chunk.nonce@, aad, chunk.ciphertext@) {
            None => Err(TransferError::ChunkAuthenticationFailed),
            Some(p) => if chunk_nonce(key, prefix, transfer_id, chunk.offset, p) != chunk.nonce@ {
                Err(TransferError::ChunkAuthenticationFailed)
            } else {
                Ok(p)
            },
        }
    }
}

impl EncryptedChunkCodec {
    /// Encrypts the plaintext at `offset` of the asset.
    pub fn encrypt(&self, offset: u64, plaintext: &[u8]) -> (r: Result<EncryptedChunk, TransferError>)
        requires
            self.wf(),
        ensures
            !range_valid(self.spec_total(), offset, plaintext@.len() as int) ==> (r matches Err(e) && e
                == TransferError::InvalidEncryptedChunk),
            range_valid(self.spec_total(), offset, plaintext@.len() as int) ==> (r matches Ok(c) && c.transfer_id@
                == self.spec_transfer_id() && c.offset == offset && c.plaintext_bytes == plaintext@.len() && c.nonce@
                == chunk_nonce(self.spec_key(), self.spec_nonce_prefix(), self.spec_transfer_id(), offset, plaintext@)
                && c.ciphertext@ == chacha_sealed_of(
                self.spec_key(),
                c.nonce@,
                chunk_aad(self.spec_transfer_id(), self.spec_total(), offset, plaintext@.len() as u32),
                plaintext@,
            ) && c.ciphertext@.len() == plaintext@.len() + 16),
    {
        self.validate_range(offset, plaintext.len())?;
        let nonce = self.derive_nonce(offset, plaintext);
        let aad = self.aad(offset, plaintext.len() as u32);
        let ciphertext = chacha_seal(&self.key, &nonce, aad.as_slice(), plaintext);
        Ok(EncryptedChunk {
            transfer_id: self.transfer_id.clone(),
            offset,
            plaintext_bytes: plaintext.len() as u32,
            nonce,
            ciphertext,
        })
    }

    /// Authenticates and decrypts a chunk of this transfer. A chunk this codec
    /// encrypted decrypts to its plaintext.
    pub fn decrypt(&self, chunk: &EncryptedChunk) -> (r: Result<Vec<u8>, TransferError>)
        requires
            self.wf(),
        ensures
            match decrypt_outcome(self.spec_key(), self.spec_nonce_prefix(), self.spec_transfer_id(), self.spec_total(), *chunk) {
                Ok(p) => r matches Ok(v) && v@ == p,
                Err(e) => r matches Err(x) && x == e,
            },
            forall|m: Seq<u8>|
                chunk.transfer_id@ == self.spec_transfer_id() && range_valid(self.spec_total(), chunk.offset, m.len() as int)
                    && chunk.plaintext_bytes == m.len() && chunk.nonce@ == chunk_nonce(
                    self.spec_key(),
                    self.spec_nonce_prefix(),
                    self.spec_transfer_id(),
                    chunk.offset,
                    m,
                ) && chunk.ciphertext@ == chacha_sealed_of(
                    self.spec_key(),
                    chunk.nonce@,
                    chunk_aad(self.spec_transfer_id(), self.spec_total(), chunk.offset, chunk.plaintext_bytes),
                    m,
                ) && chunk.ciphertext@.len() == m.len() + 16 ==> r is Ok && r->Ok_0@ == m,
    {
        if chunk.transfer_id != self.transfer_id || chunk.plaintext_bytes == 0 || chunk.plaintext_bytes > MAX_CHUNK_BYTES
            || chunk.ciphertext.len() as u64 != chunk.plaintext_bytes as u64 + 16 {
            return Err(TransferError::InvalidEncryptedChunk);
        }
        self.validate_range(chunk.offset, chunk.plaintext_bytes as usize)?;
        let aad = self.aad(chunk.offset, chunk.plaintext_bytes);
        let plaintext = match chacha_open(&self.key, &chunk.nonce, aad.as_slice(), chunk.ciphertext.as_slice()) {
            Some(p) => p,
            None => return Err(TransferError::ChunkAuthenticationFailed),
        };
        let nonce = self.derive_nonce(chunk.offset, plaintext.as_slice());
        if !same_nonce(&nonce, &chunk.nonce) {
            return Err(TransferError::ChunkAuthenticationFailed);
        }
        Ok(plaintext)
    }
}

// ---------------------------------------------------------------------------
// Both peers agree.

proof fn lemma_bytes_lt_total(a: Seq<u8>, b: Seq<u8>)
    ensures
        a == b || bytes_lt(a, b) || bytes_lt(b, a),
        !(bytes_lt(a, b) && bytes_lt(b, a)),
    decreases a.len(),
{
    if a.len() > 0 && b.len() > 0 {
        lemma_bytes_lt_total(a.drop_first(), b.drop_first());
        if a[0] == b[0] && a.drop_first() == b.drop_first() {
            assert(a =~= seq![a[0]] + a.drop_first());
            assert(b =~= seq![b[0]] + b.drop_first());
        }
    } else if a.len() == 0 && b.len() == 0 {
        assert(a =~= b);
    }
}

proof fn lemma_ordered_keys_symmetric(a: Seq<u8>, b: Seq<u8>)
    requires
        a != b,
    ensures
        ordered_keys(a, b) == ordered_keys(b, a),
{
    lemma_bytes_lt_total(a, b);
}

/// Two peers, each holding its own secret and the other's public key,
/// compute the same confirmation code, six decimal digits, and derive the
/// same session key material — given that their key agreement produced one
/// shared secret, as X25519 guarantees and as `confirmation_code` states of
/// every call that returns a code. (A peer refuses an all-zero public key,
/// so both keys are taken to be non-zero.)
pub proof fn law_peers_agree(
    a_secret: Seq<u8>,
    b_secret: Seq<u8>,
    invitation: Invitation,
    code: Seq<char>,
    m: TransferManifest,
)
    requires
        x25519_shared_of(a_secret, x25519_public_of(b_secret)) == x25519_shared_of(b_secret, x25519_public_of(a_secret)),
        !all_zero(x25519_public_of(a_secret)),
        !all_zero(x25519_public_of(b_secret)),
    ensures
        confirmation_outcome(
            a_secret,
            x25519_public_of(a_secret),
            x25519_public_of(b_secret),
            invitation.invitation_id@,
            invitation.sender.ephemeral_id@,
            m,
        ) == confirmation_outcome(
            b_secret,
            x25519_public_of(b_secret),
            x25519_public_of(a_secret),
            invitation.invitation_id@,
            invitation.sender.ephemeral_id@,
            m,
        ),
        confirmation_outcome(
            a_secret,
            x25519_public_of(a_secret),
            x25519_public_of(b_secret),
            invitation.invitation_id@,
            invitation.sender.ephemeral_id@,
            m,
        ) matches Ok(c) ==> six_digits(c),
        x25519_public_of(a_secret) != x25519_public_of(b_secret) ==> session_material(
            a_secret,
            x25519_public_of(a_secret),
            x25519_public_of(b_secret),
            invitation,
            code,
            m,
        ) == session_material(b_secret, x25519_public_of(b_secret), x25519_public_of(a_secret), invitation, code, m),
{
    let pa = x25519_public_of(a_secret);
    let pb = x25519_public_of(b_secret);
    let outcome = confirmation_outcome(a_secret, pa, pb, invitation.invitation_id@, invitation.sender.ephemeral_id@, m);
    if outcome is Ok {
        let input = confirmation_input(
            x25519_shared_of(a_secret, pb),
            pa,
            pb,
            invitation.invitation_id@,
            invitation.sender.ephemeral_id@,
            m,
        );
        law_confirmation_code_is_six_digits(sha256_of(input));
    }
    if pa != pb {
        lemma_ordered_keys_symmetric(pa, pb);
    }
}

} // verus!
