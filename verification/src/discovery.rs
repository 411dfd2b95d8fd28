//! Reading a nearby peer out of a resolved mDNS service: the TXT properties
//! it must carry, the protocol it must speak, and its address list.
use vstd::prelude::*;
use crate::media_index::{lemma_text_lt_irreflexive, lemma_text_lt_total, lemma_text_lt_transitive, text_before, text_lt};
use crate::crypto::{hex_digit, hex_text};
use crate::nearby::{display_label_outcome, encode_hex, validate_display_label, DiscoveredNearbyPeer, NearbyLocalPeer};
use crate::text::{chars_of, decimal, owned, push_decimal, push_str, string_of};
use crate::transfer::{EphemeralPublicKey, PROTOCOL_VERSION};

verus! {

/// What a resolved service offers: its TXT properties `peer`, `pk`, `v` and
/// `label` (each absent when missing or not text), its host name, port and
/// addresses written out as text.
#[derive(Debug, Clone)]
pub struct ResolvedServiceRecord {
    pub peer: Option<String>,
    pub public_key: Option<String>,
    pub version: Option<String>,
    pub label: Option<String>,
    pub host: String,
    pub port: u16,
    pub addresses: Vec<String>,
}

/// `u8::is_ascii_hexdigit` on a character.
pub open spec fn hex_char(c: char) -> bool {
    ('0' <= c && c <= '9') || ('a' <= c && c <= 'f') || ('A' <= c && c <= 'F')
}

/// `n` hexadecimal digits. (A text of `n` bytes that are all ASCII hex
/// digits is exactly this.)
pub open spec fn hex_text_of_len(s: Seq<char>, n: int) -> bool {
    s.len() == n && forall|k: int| 0 <= k < n ==> hex_char(#[trigger] s[k])
}

fn is_hex_text_of_len(s: &str, n: usize) -> (r: bool)
    ensures
        r == hex_text_of_len(s@, n as int),
{
    let cs = chars_of(s);
    if cs.len() != n {
        return false;
    }
    let mut k: usize = 0;
    while k < n
        invariant
            cs@ == s@,
            cs@.len() == n,
            k <= n,
            forall|j: int| 0 <= j < k ==> hex_char(#[trigger] s@[j]),
        decreases n - k,
    {
        let c = cs[k];
        if !(('0' <= c && c <= '9') || ('a' <= c && c <= 'f') || ('A' <= c && c <= 'F')) {
            assert(!hex_char(s@[k as int]));
            return false;
        }
        k = k + 1;
    }
    true
}

pub open spec fn digit_char(c: char) -> bool {
    '0' <= c && c <= '9'
}

pub open spec fn all_digits(s: Seq<char>) -> bool {
    forall|k: int| 0 <= k < s.len() ==> digit_char(#[trigger] s[k])
}

/// The number that a run of decimal digits writes.
pub open spec fn digits_value(s: Seq<char>) -> int
    decreases s.len(),
{
    if s.len() == 0 {
        0
    } else {
        digits_value(s.drop_last()) * 10 + (s.last() as int - '0' as int)
    }
}

/// `u16::from_str`: an optional `+`, then one or more ASCII digits whose
/// value is at most 65535.
pub open spec fn parse_u16(s: Seq<char>) -> Option<u16> {
    let d = if s.len() > 0 && s[0] == '+' {
        s.drop_first()
    } else {
        s
    };
    if d.len() > 0 && all_digits(d) && digits_value(d) <= u16::MAX {
        Some(digits_value(d) as u16)
    } else {
        None
    }
}

pub proof fn lemma_digits_value_grows(s: Seq<char>, j: int)
    requires
        all_digits(s),
        0 <= j <= s.len(),
    ensures
        digits_value(s.subrange(0, j)) <= digits_value(s),
        0 <= digits_value(s),
    decreases s.len(),
{
    if s.len() > 0 {
        assert(all_digits(s.drop_last()));
        assert(digit_char(s[s.len() - 1]));
        if j == s.len() {
            assert(s.subrange(0, j) =~= s);
            lemma_digits_value_grows(s.drop_last(), 0);
        } else {
            assert(s.drop_last().subrange(0, j) =~= s.subrange(0, j));
            lemma_digits_value_grows(s.drop_last(), j);
        }
    } else {
        assert(s.subrange(0, j) =~= s);
    }
}

/// Reads a `u16` written in decimal, as `str::parse::<u16>` does.
#[verifier::loop_isolation(false)]
pub fn parse_u16_text(text: &str) -> (r: Option<u16>)
    ensures
        r == parse_u16(text@),
{
    let cs = chars_of(text);
    let n = cs.len();
    let start: usize = if n > 0 && cs[0] == '+' {
        1
    } else {
        0
    };
    let ghost s = text@;
    let ghost d = if s.len() > 0 && s[0] == '+' {
        s.drop_first()
    } else {
        s
    };
    assert(d =~= s.subrange(start as int, n as int));
    if start == n {
        return None;
    }
    let mut value: u32 = 0;
    let mut i: usize = start;
    assert(d.subrange(0, 0) =~= Seq::<char>::empty());
    while i < n
        invariant
            cs@ == s,
            n == s.len(),
            start <= i <= n,
            d == s.subrange(start as int, n as int),
            value == digits_value(d.subrange(0, i - start)),
            all_digits(d.subrange(0, i - start)),
            value <= u16::MAX,
        decreases n - i,
    {
        let c = cs[i];
        assert(d[i - start] == c);
        if !('0' <= c && c <= '9') {
            assert(!all_digits(d));
            return None;
        }
        let ghost prefix = d.subrange(0, i + 1 - start);
        assert(prefix.drop_last() =~= d.subrange(0, i - start));
        assert(all_digits(prefix));
        let next: u32 = value * 10 + ((c as u32) - 48);
        assert(next == digits_value(prefix));
        if next > 65535 {
            proof {
                if all_digits(d) {
                    lemma_digits_value_grows(d, i + 1 - start);
                }
            }
            return None;
        }
        value = next;
        i = i + 1;
    }
    assert(d.subrange(0, n - start) =~= d);
    Some(value as u16)
}

// ---------------------------------------------------------------------------
// Address lists.

/// The text `x` is one of the strings.
pub open spec fn has_text(v: Seq<String>, x: Seq<char>) -> bool {
    exists|i: int| 0 <= i < v.len() && (#[trigger] v[i])@ == x
}

/// The strings strictly increase in the order of `String`s.
pub open spec fn strictly_ascending(v: Seq<String>) -> bool {
    forall|i: int, j: int| 0 <= i < j < v.len() ==> text_lt((#[trigger] v[i])@, (#[trigger] v[j])@)
}

/// Adds `s` at its place in the order unless it is already listed.
fn insert_text(v: &mut Vec<String>, s: String)
    requires
        strictly_ascending(old(v)@),
    ensures
        strictly_ascending(final(v)@),
        forall|x: Seq<char>| has_text(final(v)@, x) <==> (has_text(old(v)@, x) || x == s@),
{
    let mut p: usize = 0;
    while p < v.len() && text_before(v[p].as_str(), s.as_str())
        invariant
            p <= v@.len(),
            strictly_ascending(v@),
            v@ == old(v)@,
            forall|k: int| 0 <= k < p ==> text_lt((#[trigger] v@[k])@, s@),
        decreases v.len() - p,
    {
        p = p + 1;
    }
    if p < v.len() && crate::text::str_eq(v[p].as_str(), s.as_str()) {
        assert forall|x: Seq<char>| has_text(v@, x) <==> (has_text(old(v)@, x) || x == s@) by {
            if x == s@ {
                assert(v@[p as int]@ == x);
            }
        }
        return;
    }
    proof {
        if p < v@.len() {
            lemma_text_lt_total(v@[p as int]@, s@);
        }
        assert forall|k: int| p <= k < v@.len() implies text_lt(s@, (#[trigger] v@[k])@) by {
            if k > p {
                lemma_text_lt_transitive(s@, v@[p as int]@, v@[k]@);
            }
        }
    }
    let ghost before = v@;
    v.insert(p, s);
    proof {
        let w = v@;
        assert(w == before.insert(p as int, s));
        assert forall|i: int, j: int| 0 <= i < j < w.len() implies text_lt((#[trigger] w[i])@, (#[trigger] w[j])@) by {
            if j < p {
                assert(w[i] == before[i] && w[j] == before[j]);
            } else if j == p {
                assert(w[i] == before[i]);
            } else if i < p {
                assert(w[i] == before[i] && w[j] == before[j - 1]);
                lemma_text_lt_transitive(before[i]@, s@, before[j - 1]@);
            } else if i == p {
                assert(w[j] == before[j - 1]);
            } else {
                assert(w[i] == before[i - 1] && w[j] == before[j - 1]);
            }
        }
        assert forall|x: Seq<char>| has_text(w, x) <==> (has_text(before, x) || x == s@) by {
            if has_text(w, x) {
                let k = choose|k: int| 0 <= k < w.len() && (#[trigger] w[k])@ == x;
                if k < p {
                    assert(before[k] == w[k]);
                } else if k > p {
                    assert(before[k - 1] == w[k]);
                }
            }
            if has_text(before, x) {
                let k = choose|k: int| 0 <= k < before.len() && (#[trigger] before[k])@ == x;
                if k < p {
                    assert(w[k] == before[k]);
                } else {
                    assert(w[k + 1] == before[k]);
                }
            }
            if x == s@ {
                assert(w[p as int] == s);
            }
        }
    }
}

/// The addresses in ascending order with repeats dropped (`sort` then
/// `dedup`).
pub fn sorted_unique_texts(v: &Vec<String>) -> (r: Vec<String>)
    ensures
        strictly_ascending(r@),
        forall|x: Seq<char>| has_text(r@, x) <==> has_text(v@, x),
{
    let mut r: Vec<String> = Vec::new();
    let mut i: usize = 0;
    while i < v.len()
        invariant
            i <= v@.len(),
            strictly_ascending(r@),
            forall|x: Seq<char>| has_text(r@, x) <==> has_text(v@.subrange(0, i as int), x),
        decreases v.len() - i,
    {
        let s = v[i].clone();
        insert_text(&mut r, s);
        proof {
            let pre = v@.subrange(0, i as int);
            let post = v@.subrange(0, i + 1);
            assert forall|x: Seq<char>| has_text(post, x) <==> (has_text(pre, x) || x == v@[i as int]@) by {
                if has_text(post, x) {
                    let k = choose|k: int| 0 <= k < post.len() && (#[trigger] post[k])@ == x;
                    if k < i {
                        assert(pre[k] == post[k]);
                    }
                }
                if has_text(pre, x) {
                    let k = choose|k: int| 0 <= k < pre.len() && (#[trigger] pre[k])@ == x;
                    assert(post[k] == pre[k]);
                }
                if x == v@[i as int]@ {
                    assert(post[i as int] == v@[i as int]);
                }
            }
        }
        i = i + 1;
    }
    assert(v@.subrange(0, v@.len() as int) =~= v@);
    r
}

// ---------------------------------------------------------------------------
// Peers.

/// A service names a nearby peer when it carries a 12-digit hexadecimal
/// peer id, a 64-digit hexadecimal key that begins with that id, speaks this
/// protocol version, listens on a port and has an address.
pub open spec fn record_accepted(s: ResolvedServiceRecord) -> bool {
    &&& s.peer is Some
    &&& s.public_key is Some
    &&& s.version is Some
    &&& hex_text_of_len(s.peer->0@, 12)
    &&& hex_text_of_len(s.public_key->0@, 64)
    &&& s.public_key->0@.take(12) == s.peer->0@
    &&& parse_u16(s.version->0@) == Some(PROTOCOL_VERSION)
    &&& s.port != 0
    &&& s.addresses@.len() > 0
}

/// The display label a service's `label` property gives: a valid label,
/// trimmed, and nothing otherwise.
pub open spec fn record_label(label: Option<String>) -> Option<Seq<char>> {
    match label {
        None => None,
        Some(l) => match display_label_outcome(Some(l@)) {
            Ok(Some(t)) => Some(t),
            _ => None,
        },
    }
}

/// The peer that a resolved service names, if it names one.
#[verifier::loop_isolation(false)]
pub fn resolved_peer(service: &ResolvedServiceRecord) -> (r: Option<DiscoveredNearbyPeer>)
    ensures
        r is Some <==> record_accepted(*service),
        r is Some ==> {
            let p = r->0;
            &&& p.ephemeral_id@ == service.peer->0@
            &&& p.public_key_hex@ == service.public_key->0@
            &&& p.host@ == service.host@
            &&& p.port == service.port
            &&& p.protocol_version == PROTOCOL_VERSION
            &&& (match record_label(service.label) {
                None => p.display_label is None,
                Some(t) => p.display_label is Some && p.display_label->0@ == t,
            })
            &&& strictly_ascending(p.addresses@)
            &&& forall|x: Seq<char>| has_text(p.addresses@, x) <==> has_text(service.addresses@, x)
        },
{
    let peer = match &service.peer {
        Some(p) => p,
        None => return None,
    };
    let key = match &service.public_key {
        Some(k) => k,
        None => return None,
    };
    let version = match &service.version {
        Some(v) => match parse_u16_text(v.as_str()) {
            Some(n) => n,
            None => return None,
        },
        None => return None,
    };
    if !is_hex_text_of_len(peer.as_str(), 12) || !is_hex_text_of_len(key.as_str(), 64) {
        return None;
    }
    let peer_chars = chars_of(peer.as_str());
    let key_chars = chars_of(key.as_str());
    let mut k: usize = 0;
    while k < 12
        invariant
            peer_chars@ == peer@,
            key_chars@ == key@,
            peer@.len() == 12,
            key@.len() == 64,
            k <= 12,
            forall|j: int| 0 <= j < k ==> #[trigger] key@[j] == peer@[j],
        decreases 12 - k,
    {
        if key_chars[k] != peer_chars[k] {
            assert(key@.take(12)[k as int] != peer@[k as int]);
            return None;
        }
        k = k + 1;
    }
    assert(key@.take(12) =~= peer@);
    if version != PROTOCOL_VERSION || service.port == 0 {
        return None;
    }
    let addresses = sorted_unique_texts(&service.addresses);
    if addresses.len() == 0 {
        proof {
            if service.addresses@.len() > 0 {
                assert(has_text(service.addresses@, service.addresses@[0]@));
            }
        }
        return None;
    }
    proof {
        if service.addresses@.len() == 0 {
            assert(has_text(addresses@, addresses@[0]@));
        }
    }
    let display_label = match &service.label {
        None => None,
        Some(l) => match validate_display_label(Some(l.clone())) {
            Ok(Some(t)) => Some(t),
            _ => None,
        },
    };
    Some(
        DiscoveredNearbyPeer {
            ephemeral_id: peer.clone(),
            display_label,
            public_key_hex: key.clone(),
            host: service.host.clone(),
            addresses,
            port: service.port,
            protocol_version: version,
        },
    )
}

// ---------------------------------------------------------------------------
// What this device advertises.

proof fn lemma_hex_text_digits(b: Seq<u8>)
    ensures
        hex_text(b).len() == 2 * b.len(),
        forall|k: int| 0 <= k < hex_text(b).len() ==> hex_char(#[trigger] hex_text(b)[k]),
    decreases b.len(),
{
    if b.len() > 0 {
        lemma_hex_text_digits(b.drop_last());
        let h = hex_text(b.drop_last());
        let hi = b.last() / 16;
        let lo = b.last() % 16;
        assert(hex_char(hex_digit(hi)) && hex_char(hex_digit(lo))) by {
            assert(hi < 16 && lo < 16);
        }
        assert forall|k: int| 0 <= k < hex_text(b).len() implies hex_char(#[trigger] hex_text(b)[k]) by {
            if k < h.len() {
                assert(hex_text(b)[k] == h[k]);
            }
        }
    }
}

/// The identity this device advertises for its key: the key as lowercase
/// hexadecimal text, and the first 12 digits of that text as its peer id.
pub fn local_peer(public_key: &EphemeralPublicKey, display_label: Option<String>, port: u16) -> (r: NearbyLocalPeer)
    ensures
        r.public_key_hex@ == hex_text(public_key.bytes@),
        r.ephemeral_id@ == hex_text(public_key.bytes@).take(12),
        r.display_label == display_label,
        r.port == port,
{
    let public_key_hex = encode_hex(public_key.bytes.as_slice());
    proof {
        lemma_hex_text_digits(public_key.bytes@);
    }
    let cs = chars_of(public_key_hex.as_str());
    let mut id: Vec<char> = Vec::new();
    let mut i: usize = 0;
    while i < 12
        invariant
            cs@ == hex_text(public_key.bytes@),
            cs@.len() == 64,
            i <= 12,
            id@ == cs@.take(i as int),
        decreases 12 - i,
    {
        id.push(cs[i]);
        i = i + 1;
        assert(id@ =~= cs@.take(i as int));
    }
    NearbyLocalPeer { ephemeral_id: string_of(&id), display_label, public_key_hex, port }
}

/// The TXT properties this device advertises: the protocol version, its
/// peer id and key, and its display label where it has one.
pub fn service_properties(local: &NearbyLocalPeer) -> (r: Vec<(String, String)>)
    ensures
        r@.len() == (if local.display_label is Some { 4int } else { 3int }),
        r@[0].0@ == seq!['v'] && r@[0].1@ == decimal(PROTOCOL_VERSION as nat),
        r@[1].0@ == seq!['p', 'e', 'e', 'r'] && r@[1].1@ == local.ephemeral_id@,
        r@[2].0@ == seq!['p', 'k'] && r@[2].1@ == local.public_key_hex@,
        local.display_label is Some ==> r@[3].0@ == seq!['l', 'a', 'b', 'e', 'l'] && r@[3].1@
            == local.display_label->0@,
{
    proof {
        reveal_strlit("v");
        reveal_strlit("peer");
        reveal_strlit("pk");
        reveal_strlit("label");
    }
    let mut version = String::new();
    push_decimal(&mut version, PROTOCOL_VERSION as u64);
    let mut properties: Vec<(String, String)> = Vec::new();
    properties.push((owned("v"), version));
    properties.push((owned("peer"), local.ephemeral_id.clone()));
    properties.push((owned("pk"), local.public_key_hex.clone()));
    match &local.display_label {
        Some(label) => properties.push((owned("label"), label.clone())),
        None => {},
    }
    properties
}

/// The mDNS instance name this device registers: `ufc-` and its peer id.
pub fn service_instance_name(local: &NearbyLocalPeer) -> (r: String)
    ensures
        r@ == seq!['u', 'f', 'c', '-'] + local.ephemeral_id@,
{
    proof {
        reveal_strlit("ufc-");
    }
    let mut name = owned("ufc-");
    push_str(&mut name, local.ephemeral_id.as_str());
    name
}

/// The host name this device registers: its instance name in `.local.`.
pub fn service_host_name(local: &NearbyLocalPeer) -> (r: String)
    ensures
        r@ == seq!['u', 'f', 'c', '-'] + local.ephemeral_id@ + seq!['.', 'l', 'o', 'c', 'a', 'l', '.'],
{
    proof {
        reveal_strlit(".local.");
    }
    let mut name = service_instance_name(local);
    push_str(&mut name, ".local.");
    name
}

/// What a device advertises for its key is read back, by any device that
/// resolves the service, as a nearby peer: whenever the service listens on a
/// port and has an address, its peer id, key and version pass every check.
pub proof fn law_advertised_peer_is_resolved(key: Seq<u8>, record: ResolvedServiceRecord)
    requires
        key.len() == 32,
        record.peer is Some,
        record.peer->0@ == hex_text(key).take(12),
        record.public_key is Some,
        record.public_key->0@ == hex_text(key),
        record.version is Some,
        record.version->0@ == decimal(PROTOCOL_VERSION as nat),
        record.port != 0,
        record.addresses@.len() > 0,
    ensures
        record_accepted(record),
{
    lemma_hex_text_digits(key);
    let v = record.version->0@;
    assert(v == seq!['1']);
    assert(v.drop_last() =~= Seq::<char>::empty());
    assert(digits_value(v.drop_last()) == 0);
    assert(v.last() == '1');
    assert(('1' as int) - ('0' as int) == 1);
    assert(digits_value(v) == 1);
    assert(parse_u16(v) == Some(1u16));
}

} // verus!
