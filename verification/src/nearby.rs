//! Nearby discovery: peer labels, key text and how transfer failures are
//! reported to the user.
use vstd::prelude::*;
use vstd::string::*;
use vstd::utf8::encode_utf8;
use crate::crypto::{hex_digit, hex_text};
use crate::text::{chars_of, control, decimal, is_control, push_char, push_decimal, string_of, trim, trimmed};
use crate::transfer::{
    EphemeralPublicKey, Invitation, PeerCapabilities, PeerIdentity, TransferState, TransportKind, MAX_CHUNK_BYTES,
    PROTOCOL_VERSION, ascii_hexdigit,
};

verus! {

pub const NEARBY_SERVICE_TYPE: &'static str = "_ufcamera._tcp.local.";

#[derive(Debug, Clone, Copy, PartialEq, Eq, Structural)]
pub enum NearbyTransferFailureKind {
    Disconnected,
    Timeout,
    Integrity,
    Storage,
    InvitationExpired,
    Cancelled,
    Protocol,
}

#[derive(Debug, Clone, Copy, PartialEq, Eq, Structural)]
pub enum NearbyApprovalDirection {
    Outgoing,
    Incoming,
}

#[derive(Debug, Clone, PartialEq, Eq)]
pub struct NearbyLocalPeer {
    pub ephemeral_id: String,
    pub display_label: Option<String>,
    pub public_key_hex: String,
    pub port: u16,
}

#[derive(Debug, Clone, PartialEq, Eq)]
pub struct DiscoveredNearbyPeer {
    pub ephemeral_id: String,
    pub display_label: Option<String>,
    pub public_key_hex: String,
    pub host: String,
    pub addresses: Vec<String>,
    pub port: u16,
    pub protocol_version: u16,
}

#[derive(Debug, Clone, PartialEq, Eq)]
pub struct NearbyApprovalSnapshot {
    pub invitation_id: String,
    pub peer_ephemeral_id: String,
    pub asset_id: String,
    pub file_name: String,
    pub byte_length: u64,
    pub confirmation_code: String,
    pub expires_at_unix_ms: u64,
    pub local_approved: bool,
    pub remote_approved: bool,
    pub direction: NearbyApprovalDirection,
    pub transferred_bytes: u64,
    pub transfer_active: bool,
    pub cancel_requested: bool,
    pub retry_available: bool,
    pub failure_kind: Option<NearbyTransferFailureKind>,
    pub finalized: bool,
}

#[derive(Debug, Clone, PartialEq, Eq)]
pub struct NearbyDiscoverySnapshot {
    pub supported: bool,
    pub active: bool,
    pub local_peer: Option<NearbyLocalPeer>,
    pub peers: Vec<DiscoveredNearbyPeer>,
    pub last_error: Option<String>,
    pub approval: Option<NearbyApprovalSnapshot>,
}

#[derive(Debug)]
pub struct StartNearbyDiscoveryRequest {
    pub display_label: Option<String>,
    pub port: u16,
}

// ---------------------------------------------------------------------------
// Display labels.

/// What a display label becomes: none when absent or blank, the trimmed label
/// when it has at most 32 characters and no control character, else refused.
pub open spec fn display_label_outcome(value: Option<Seq<char>>) -> Result<Option<Seq<char>>, Seq<char>> {
    match value {
        None => Ok(None),
        Some(v) => {
            let t = trimmed(v);
            if t.len() == 0 {
                Ok(None)
            } else if t.len() > 32 || exists|i: int| 0 <= i < t.len() && control(#[trigger] t[i]) {
                Err("nearby display label is invalid"@)
            } else {
                Ok(Some(t))
            }
        },
    }
}

#[verifier::loop_isolation(false)]
pub fn validate_display_label(value: Option<String>) -> (r: Result<Option<String>, String>)
    ensures
        match display_label_outcome(match value { Some(v) => Some(v@), None => None }) {
            Ok(None) => r == Ok::<Option<String>, String>(None),
            Ok(Some(t)) => r matches Ok(Some(s)) && s@ == t,
            Err(m) => r matches Err(e) && e@ == m,
        },
{
    let value = match value {
        None => return Ok(None),
        Some(v) => v,
    };
    let t = trim(value.as_str());
    if t.len() == 0 {
        return Ok(None);
    }
    proof {
        reveal_strlit("nearby display label is invalid");
    }
    if t.len() > 32 {
        return Err(crate::text::owned("nearby display label is invalid"));
    }
    let mut i: usize = 0;
    while i < t.len()
        invariant
            i <= t@.len(),
            forall|k: int| 0 <= k < i ==> !control(#[trigger] t@[k]),
        decreases t.len() - i,
    {
        if is_control(t[i]) {
            assert(control(t@[i as int]));
            return Err(crate::text::owned("nearby display label is invalid"));
        }
        i = i + 1;
    }
    Ok(Some(string_of(&t)))
}

// ---------------------------------------------------------------------------
// Key text.

/// Lowercase hexadecimal text of bytes.
pub fn encode_hex(bytes: &[u8]) -> (r: String)
    ensures
        r@ == hex_text(bytes@),
{
    let mut output = String::new();
    let mut i: usize = 0;
    while i < bytes.len()
        invariant
            i <= bytes@.len(),
            output@ == hex_text(bytes@.subrange(0, i as int)),
        decreases bytes.len() - i,
    {
        let b = bytes[i];
        let hi = b / 16;
        let lo = b % 16;
        let ch = if hi < 10 { (hi + 48) as char } else { (hi + 87) as char };
        let cl = if lo < 10 { (lo + 48) as char } else { (lo + 87) as char };
        push_char(&mut output, ch);
        push_char(&mut output, cl);
        i = i + 1;
        proof {
            let p = bytes@.subrange(0, i as int);
            assert(p.drop_last() =~= bytes@.subrange(0, i - 1));
            assert(p.last() == b);
        }
    }
    assert(bytes@.subrange(0, bytes@.len() as int) =~= bytes@);
    output
}

pub open spec fn hex_value(b: u8) -> int {
    if 0x30 <= b <= 0x39 {
        b - 0x30
    } else if 0x41 <= b <= 0x46 {
        b - 0x41 + 10
    } else {
        b - 0x61 + 10
    }
}

/// The byte two key characters denote: both must be ASCII hex digits.
pub open spec fn hex_pair(hi: u8, lo: u8) -> Option<u8> {
    if ascii_hexdigit(hi) && ascii_hexdigit(lo) {
        Some((hex_value(hi) * 16 + hex_value(lo)) as u8)
    } else {
        None
    }
}

pub open spec fn key_pairs_valid(b: Seq<u8>) -> bool {
    forall|i: int| 0 <= i < 32 ==> #[trigger] hex_pair(b[2 * i], b[2 * i + 1]) is Some
}

/// A peer's public key from its 64-character text form.
pub open spec fn public_key_outcome(text: Seq<char>) -> Result<Seq<u8>, Seq<char>> {
    let b = encode_utf8(text);
    if b.len() != 64 {
        Err("nearby public key has an invalid length"@)
    } else if !key_pairs_valid(b) {
        Err("nearby public key is not hexadecimal"@)
    } else {
        Ok(Seq::new(32, |i: int| hex_pair(b[2 * i], b[2 * i + 1])->0))
    }
}

fn hex_value_of(b: u8) -> (r: u8)
    requires
        ascii_hexdigit(b),
    ensures
        r as int == hex_value(b),
        r < 16,
{
    if 0x30 <= b && b <= 0x39 {
        b - 0x30
    } else if 0x41 <= b && b <= 0x46 {
        b - 0x41 + 10
    } else {
        b - 0x61 + 10
    }
}

fn is_hex_byte(b: u8) -> (r: bool)
    ensures
        r == ascii_hexdigit(b),
{
    (0x30 <= b && b <= 0x39) || (0x41 <= b && b <= 0x46) || (0x61 <= b && b <= 0x66)
}

pub fn decode_public_key(value: &str) -> (r: Result<EphemeralPublicKey, String>)
    ensures
        match public_key_outcome(value@) {
            Ok(k) => r matches Ok(key) && key.bytes@ == k,
            Err(m) => r matches Err(e) && e@ == m,
        },
{
    proof {
        reveal_strlit("nearby public key has an invalid length");
        reveal_strlit("nearby public key is not hexadecimal");
    }
    let text = value.as_bytes();
    if text.len() != 64 {
        return Err(crate::text::owned("nearby public key has an invalid length"));
    }
    let mut bytes = [0u8; 32];
    let mut i: usize = 0;
    while i < 32
        invariant
            text@ == encode_utf8(value@),
            text@.len() == 64,
            i <= 32,
            bytes@.len() == 32,
            forall|k: int| 0 <= k < i ==> #[trigger] hex_pair(text@[2 * k], text@[2 * k + 1]) == Some(bytes@[k]),
        decreases 32 - i,
    {
        let hi = text[2 * i];
        let lo = text[2 * i + 1];
        let v: u8 = if is_hex_byte(hi) && is_hex_byte(lo) {
            let h = hex_value_of(hi);
            let l = hex_value_of(lo);
            h * 16 + l
        } else {
            assert(!key_pairs_valid(text@)) by {
                assert(hex_pair(text@[2 * (i as int)], text@[2 * (i as int) + 1]) is None);
            }
            return Err(crate::text::owned("nearby public key is not hexadecimal"));
        };
        bytes[i] = v;
        i = i + 1;
    }
    assert(bytes@ =~= Seq::new(32, |k: int| hex_pair(text@[2 * k], text@[2 * k + 1])->0));
    Ok(EphemeralPublicKey { bytes })
}

// ---------------------------------------------------------------------------
// Failure reporting.

/// `t` occurs in `s` at position `i`.
pub open spec fn occurs_at(s: Seq<char>, t: Seq<char>, i: int) -> bool {
    0 <= i && i + t.len() <= s.len() && s.subrange(i, i + t.len()) == t
}

/// `t` occurs in `s`.
pub open spec fn contains_text(s: Seq<char>, t: Seq<char>) -> bool {
    exists|i: int| #[trigger] occurs_at(s, t, i)
}

pub open spec fn lower_char(c: char) -> char {
    if 'A' <= c <= 'Z' {
        ((c as u32) + 32) as char
    } else {
        c
    }
}

/// The category a transfer error message falls in, as its ASCII-lowercased
/// text reads.
pub open spec fn failure_kind_of(message: Seq<char>) -> NearbyTransferFailureKind {
    let n = message.map_values(|c: char| lower_char(c));
    if contains_text(n, "cancel"@) {
        NearbyTransferFailureKind::Cancelled
    } else if contains_text(n, "invitationexpired"@) || contains_text(n, "invitation expired"@) {
        NearbyTransferFailureKind::InvitationExpired
    } else if contains_text(n, "insufficientstorage"@) || contains_text(n, "not enough"@) || contains_text(n, "no space"@) {
        NearbyTransferFailureKind::Storage
    } else if contains_text(n, "contentverificationfailed"@) || contains_text(n, "resumeprefixmismatch"@)
        || contains_text(n, "authenticationfailed"@) || contains_text(n, "manifestmismatch"@) || contains_text(
        n,
        "hash"@,
    ) || contains_text(n, "finalization did not match"@) {
        NearbyTransferFailureKind::Integrity
    } else if contains_text(n, "timed out"@) || contains_text(n, "timeout"@) {
        NearbyTransferFailureKind::Timeout
    } else if contains_text(n, "connection"@) || contains_text(n, "broken pipe"@) || contains_text(n, "unexpected eof"@)
        || contains_text(n, "peer disconnected"@) || (n.len() >= 3 && n.subrange(0, 3) == "io("@) {
        NearbyTransferFailureKind::Disconnected
    } else {
        NearbyTransferFailureKind::Protocol
    }
}

fn occurs(s: &Vec<char>, t: &str) -> (r: bool)
    ensures
        r == contains_text(s@, t@),
{
    let u = chars_of(t);
    let n = s.len();
    let m = u.len();
    if m > n {
        assert(!contains_text(s@, t@)) by {
            if contains_text(s@, t@) {
                let k = choose|k: int| #[trigger] occurs_at(s@, t@, k);
            }
        }
        return false;
    }
    let mut i: usize = 0;
    while i <= n - m
        invariant
            u@ == t@,
            n == s@.len(),
            m == u@.len(),
            m <= n,
            i <= n - m + 1,
            forall|k: int| 0 <= k < i ==> !#[trigger] occurs_at(s@, t@, k),
        decreases n - m + 1 - i,
    {
        let mut j: usize = 0;
        let mut same = true;
        while j < m
            invariant
                u@ == t@,
                n == s@.len(),
                m == u@.len(),
                i + m <= n,
                j <= m,
                same == (forall|q: int| 0 <= q < j ==> s@[i + q] == u@[q]),
            decreases m - j,
        {
            if s[i + j] != u[j] {
                same = false;
            }
            j = j + 1;
        }
        if same {
            assert(s@.subrange(i as int, i + m) =~= t@);
            assert(occurs_at(s@, t@, i as int));
            return true;
        }
        assert(s@.subrange(i as int, i + m) != t@) by {
            let q = choose|q: int| 0 <= q < m && s@[i + q] != u@[q];
            assert(s@.subrange(i as int, i + m)[q] == s@[i + q]);
        }
        i = i + 1;
    }
    assert(!contains_text(s@, t@)) by {
        if contains_text(s@, t@) {
            let k = choose|k: int| #[trigger] occurs_at(s@, t@, k);
            assert(k < i);
        }
    }
    false
}

/// The category of a transfer failure, from its message.
pub fn classify_transfer_failure(error: &str) -> (r: NearbyTransferFailureKind)
    ensures
        r == failure_kind_of(error@),
{
    let chars = chars_of(error);
    let mut n: Vec<char> = Vec::new();
    let mut i: usize = 0;
    while i < chars.len()
        invariant
            chars@ == error@,
            i <= chars@.len(),
            n@ == error@.subrange(0, i as int).map_values(|c: char| lower_char(c)),
        decreases chars.len() - i,
    {
        let c = chars[i];
        let l = if 'A' <= c && c <= 'Z' {
            ((c as u32) + 32) as u8 as char
        } else {
            c
        };
        n.push(l);
        i = i + 1;
        assert(n@ =~= error@.subrange(0, i as int).map_values(|c: char| lower_char(c)));
    }
    assert(error@.subrange(0, error@.len() as int) =~= error@);
    proof {
        reveal_strlit("io(");
    }
    let starts_io = n.len() >= 3 && n[0] == 'i' && n[1] == 'o' && n[2] == '(';
    assert(starts_io == (n@.len() >= 3 && n@.subrange(0, 3) == "io("@)) by {
        if n@.len() >= 3 && n@.subrange(0, 3) == "io("@ {
            assert(n@.subrange(0, 3)[0] == n@[0] && n@.subrange(0, 3)[1] == n@[1] && n@.subrange(0, 3)[2] == n@[2]);
        }
        if starts_io {
            assert(n@.subrange(0, 3) =~= "io("@);
        }
    }
    if occurs(&n, "cancel") {
        NearbyTransferFailureKind::Cancelled
    } else if occurs(&n, "invitationexpired") || occurs(&n, "invitation expired") {
        NearbyTransferFailureKind::InvitationExpired
    } else if occurs(&n, "insufficientstorage") || occurs(&n, "not enough") || occurs(&n, "no space") {
        NearbyTransferFailureKind::Storage
    } else if occurs(&n, "contentverificationfailed") || occurs(&n, "resumeprefixmismatch") || occurs(
        &n,
        "authenticationfailed",
    ) || occurs(&n, "manifestmismatch") || occurs(&n, "hash") || occurs(&n, "finalization did not match") {
        NearbyTransferFailureKind::Integrity
    } else if occurs(&n, "timed out") || occurs(&n, "timeout") {
        NearbyTransferFailureKind::Timeout
    } else if occurs(&n, "connection") || occurs(&n, "broken pipe") || occurs(&n, "unexpected eof") || occurs(
        &n,
        "peer disconnected",
    ) || starts_io {
        NearbyTransferFailureKind::Disconnected
    } else {
        NearbyTransferFailureKind::Protocol
    }
}

/// Only a lost connection or a timeout may be retried.
pub fn retryable_failure(kind: NearbyTransferFailureKind) -> (r: bool)
    ensures
        r == (kind == NearbyTransferFailureKind::Disconnected || kind == NearbyTransferFailureKind::Timeout),
{
    matches!(kind, NearbyTransferFailureKind::Disconnected) || matches!(kind, NearbyTransferFailureKind::Timeout)
}

/// How a failed transfer is reported: its category, and whether retry is
/// offered (a retryable category, no cancellation asked for, and the
/// invitation still valid at `now_unix_ms` when the clock could be read).
pub fn transfer_failure_report(
    error: &str,
    cancel_requested: bool,
    now_unix_ms: Option<u64>,
    expires_at_unix_ms: u64,
) -> (r: (NearbyTransferFailureKind, bool))
    ensures
        r.0 == failure_kind_of(error@),
        r.1 == ((r.0 == NearbyTransferFailureKind::Disconnected || r.0 == NearbyTransferFailureKind::Timeout)
            && !cancel_requested && now_unix_ms is Some && now_unix_ms->0 <= expires_at_unix_ms),
{
    let kind = classify_transfer_failure(error);
    let retry = retryable_failure(kind) && !cancel_requested && match now_unix_ms {
        Some(now) => now <= expires_at_unix_ms,
        None => false,
    };
    (kind, retry)
}

/// What this device offers: the local-network transport, the largest chunk
/// the protocol allows, and resumption.
pub fn local_capabilities() -> (r: PeerCapabilities)
    ensures
        r.protocol_version == PROTOCOL_VERSION,
        r.transports@ == seq![TransportKind::LocalNetwork],
        r.max_chunk_bytes == MAX_CHUNK_BYTES,
        r.supports_resume,
{
    let mut transports: Vec<TransportKind> = Vec::new();
    transports.push(TransportKind::LocalNetwork);
    PeerCapabilities {
        protocol_version: PROTOCOL_VERSION,
        transports,
        max_chunk_bytes: MAX_CHUNK_BYTES,
        supports_resume: true,
    }
}

// ---------------------------------------------------------------------------
// Connecting an approved outgoing transfer.

/// How an outgoing connection starts from the prepared approval.
#[derive(Debug, Clone, Copy, PartialEq, Eq, Structural)]
pub enum OutgoingConnectionPlan {
    /// Connect with the prepared session, which is negotiating.
    Prepared,
    /// Reconnect after a failure with a fresh session, approved again.
    Retry,
}

/// Which session an outgoing connection uses: the prepared one while it
/// negotiates, a fresh one when a transfer that was under way may be
/// retried; an incoming approval or any other state cannot connect.
pub fn outgoing_connection_plan(direction: NearbyApprovalDirection, state: &TransferState, retry_available: bool) -> (r:
    Result<OutgoingConnectionPlan, &'static str>)
    ensures
        direction != NearbyApprovalDirection::Outgoing ==> r == Err::<OutgoingConnectionPlan, &'static str>(
            "outgoing nearby transfer is not locally approved",
        ),
        direction == NearbyApprovalDirection::Outgoing && *state is Negotiating ==> r == Ok::<
            OutgoingConnectionPlan,
            &'static str,
        >(OutgoingConnectionPlan::Prepared),
        direction == NearbyApprovalDirection::Outgoing && retry_available && *state is Transferring ==> r == Ok::<
            OutgoingConnectionPlan,
            &'static str,
        >(OutgoingConnectionPlan::Retry),
        direction == NearbyApprovalDirection::Outgoing && !(*state is Negotiating) && !(retry_available
            && *state is Transferring) ==> r == Err::<OutgoingConnectionPlan, &'static str>(
            "outgoing nearby transfer is not ready to reconnect",
        ),
{
    if direction != NearbyApprovalDirection::Outgoing {
        return Err("outgoing nearby transfer is not locally approved");
    }
    match state {
        TransferState::Negotiating => Ok(OutgoingConnectionPlan::Prepared),
        TransferState::Transferring { .. } => {
            if retry_available {
                Ok(OutgoingConnectionPlan::Retry)
            } else {
                Err("outgoing nearby transfer is not ready to reconnect")
            }
        },
        _ => Err("outgoing nearby transfer is not ready to reconnect"),
    }
}

// ---------------------------------------------------------------------------
// Preparing an outgoing approval.

/// How long an invitation stays open, in milliseconds.
pub const INVITATION_LIFETIME_MS: u64 = 120000;

/// The invitation and transfer identifiers drawn from 16 random bytes:
/// `inv-` and all of them in hexadecimal, `share-` and the first eight.
pub fn approval_identifiers(random: &[u8; 16]) -> (r: (String, String))
    ensures
        r.0@ == seq!['i', 'n', 'v', '-'] + hex_text(random@),
        r.1@ == seq!['s', 'h', 'a', 'r', 'e', '-'] + hex_text(random@.take(8)),
{
    proof {
        reveal_strlit("inv-");
        reveal_strlit("share-");
    }
    let mut invitation_id = crate::text::owned("inv-");
    let all = encode_hex(random.as_slice());
    crate::text::push_str(&mut invitation_id, all.as_str());
    let mut head: Vec<u8> = Vec::new();
    let mut i: usize = 0;
    while i < 8
        invariant
            i <= 8,
            random@.len() == 16,
            head@ == random@.take(i as int),
        decreases 8 - i,
    {
        head.push(random[i]);
        i = i + 1;
        assert(head@ =~= random@.take(i as int));
    }
    let mut transfer_prefix = crate::text::owned("share-");
    let part = encode_hex(head.as_slice());
    crate::text::push_str(&mut transfer_prefix, part.as_str());
    (invitation_id, transfer_prefix)
}

/// The invitation this device sends for an outgoing transfer: its own
/// identity as sender, the code both devices compare, open for two minutes
/// from `now_unix_ms` (to the end of time where that would overflow).
pub fn outgoing_invitation(invitation_id: String, local: &NearbyLocalPeer, confirmation_code: String, now_unix_ms: u64) -> (r:
    Invitation)
    ensures
        r.invitation_id@ == invitation_id@,
        r.sender.ephemeral_id@ == local.ephemeral_id@,
        r.sender.display_label is Some <==> local.display_label is Some,
        local.display_label is Some ==> r.sender.display_label->0@ == local.display_label->0@,
        r.confirmation_code@ == confirmation_code@,
        r.expires_at_unix_ms == (if now_unix_ms + INVITATION_LIFETIME_MS > u64::MAX {
            u64::MAX as int
        } else {
            now_unix_ms + INVITATION_LIFETIME_MS
        }),
{
    let display_label = match &local.display_label {
        Some(label) => Some(label.clone()),
        None => None,
    };
    Invitation {
        invitation_id,
        sender: PeerIdentity { ephemeral_id: local.ephemeral_id.clone(), display_label },
        confirmation_code,
        expires_at_unix_ms: now_unix_ms.saturating_add(INVITATION_LIFETIME_MS),
    }
}

// ---------------------------------------------------------------------------
// Connecting to a peer, and an offer coming in.

/// The socket address text of a peer address and port: an address holding
/// a `:` (IPv6) goes in brackets.
pub open spec fn endpoint_of(address: Seq<char>, port: u16) -> Seq<char> {
    if address.contains(':') {
        seq!['['] + address + seq![']', ':'] + decimal(port as nat)
    } else {
        address + seq![':'] + decimal(port as nat)
    }
}

pub fn endpoint_text(address: &str, port: u16) -> (r: String)
    ensures
        r@ == endpoint_of(address@, port),
{
    let cs = chars_of(address);
    let mut ipv6 = false;
    let mut i: usize = 0;
    while i < cs.len()
        invariant
            cs@ == address@,
            i <= cs@.len(),
            ipv6 <==> exists|k: int| 0 <= k < i && cs@[k] == ':',
        decreases cs.len() - i,
    {
        if cs[i] == ':' {
            ipv6 = true;
        }
        i = i + 1;
    }
    assert(ipv6 <==> address@.contains(':'));
    let mut r = String::new();
    if ipv6 {
        push_char(&mut r, '[');
    }
    crate::text::push_str(&mut r, address);
    if ipv6 {
        push_char(&mut r, ']');
    }
    push_char(&mut r, ':');
    push_decimal(&mut r, port as u64);
    proof {
        if ipv6 {
            assert(r@ =~= endpoint_of(address@, port));
        } else {
            assert(r@ =~= endpoint_of(address@, port));
        }
    }
    r
}

/// Whether the approval an outgoing connection started from still stands
/// once the peer answered: the same offer and, for a first connection, the
/// same session; for a retry, a retry still open.
pub fn approval_unchanged(plan: OutgoingConnectionPlan, same_offer: bool, same_session: bool, retry_available: bool) -> (r:
    bool)
    ensures
        r == (same_offer && (plan == OutgoingConnectionPlan::Prepared ==> same_session) && (plan
            == OutgoingConnectionPlan::Retry ==> retry_available)),
{
    match plan {
        OutgoingConnectionPlan::Prepared => same_offer && same_session,
        OutgoingConnectionPlan::Retry => same_offer && retry_available,
    }
}

/// The first discovered peer with the offer's sender id and key, if any.
pub open spec fn sender_index(peers: Seq<DiscoveredNearbyPeer>, id: Seq<char>, key: Seq<u8>, i: int) -> Option<int>
    decreases peers.len() - i,
{
    if i < 0 || i >= peers.len() {
        None
    } else if peers[i].ephemeral_id@ == id && peers[i].public_key_hex@ == hex_text(key) {
        Some(i)
    } else {
        sender_index(peers, id, key, i + 1)
    }
}

/// Finds the discovered peer that sent an offer: the first with the
/// sender's ephemeral id whose advertised key is the offer's key.
pub fn find_offer_sender(peers: &Vec<DiscoveredNearbyPeer>, sender_ephemeral_id: &str, sender_key: &EphemeralPublicKey) -> (r:
    Option<usize>)
    ensures
        match sender_index(peers@, sender_ephemeral_id@, sender_key.bytes@, 0) {
            Some(i) => r == Some(i as usize),
            None => r is None,
        },
{
    let key_hex = encode_hex(sender_key.bytes.as_slice());
    let mut i: usize = 0;
    while i < peers.len()
        invariant
            i <= peers@.len(),
            key_hex@ == hex_text(sender_key.bytes@),
            sender_index(peers@, sender_ephemeral_id@, sender_key.bytes@, 0) == sender_index(
                peers@,
                sender_ephemeral_id@,
                sender_key.bytes@,
                i as int,
            ),
        decreases peers.len() - i,
    {
        if crate::text::str_eq(peers[i].ephemeral_id.as_str(), sender_ephemeral_id) && crate::text::str_eq(
            peers[i].public_key_hex.as_str(),
            key_hex.as_str(),
        ) {
            return Some(i);
        }
        i = i + 1;
    }
    None
}

/// What an incoming offer from a discovered peer leads to.
#[derive(Debug, Clone, Copy, PartialEq, Eq, Structural)]
pub enum IncomingOfferStep {
    /// The offer repeats the incoming approval that may be retried:
    /// approve it again at once.
    RetryApproval,
    /// A new approval for the user to confirm.
    NewApproval,
}

/// Decides an incoming offer: the code the offer carries must be the one
/// this device computes from the key exchange; an offer equal to an
/// incoming approval open for retry resumes it, any other waits for the
/// user.
pub fn incoming_offer_step(expected_code: &str, offered_code: &str, retry_matches: bool) -> (r: Result<
    IncomingOfferStep,
    &'static str,
>)
    ensures
        expected_code@ != offered_code@ ==> r == Err::<IncomingOfferStep, &'static str>(
            "incoming offer confirmation transcript does not match",
        ),
        expected_code@ == offered_code@ && retry_matches ==> r == Ok::<IncomingOfferStep, &'static str>(
            IncomingOfferStep::RetryApproval,
        ),
        expected_code@ == offered_code@ && !retry_matches ==> r == Ok::<IncomingOfferStep, &'static str>(
            IncomingOfferStep::NewApproval,
        ),
{
    if !crate::text::str_eq(expected_code, offered_code) {
        return Err("incoming offer confirmation transcript does not match");
    }
    if retry_matches {
        Ok(IncomingOfferStep::RetryApproval)
    } else {
        Ok(IncomingOfferStep::NewApproval)
    }
}

} // verus!
