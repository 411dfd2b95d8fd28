//! The index of captured media: finalized assets, failed captures and
//! incomplete resources, as records kept beside the captures.
use vstd::prelude::*;
use vstd::string::*;
use vstd::utf8::encode_utf8;
use crate::asset::{AssetState, CapturedAsset, MediaResource};
use crate::camera::{CameraError, CapturedMediaType, camera_error};
use crate::text::{blank, chars_of, decimal, is_blank, owned, push_char, push_decimal, push_str, str_eq, string_of, white_space};
use crate::transfer::token_byte;

verus! {

pub const MEDIA_RECORD_SCHEMA_VERSION: u32 = 1;

#[derive(Debug, Clone, PartialEq, Eq)]
pub struct MediaIndexEntry {
    pub schema_version: u32,
    pub id: String,
    pub state: AssetState,
    pub media_type: CapturedMediaType,
    pub resource_path: String,
    pub asset: Option<CapturedAsset>,
    pub error: Option<String>,
    pub updated_at_utc: String,
}

#[derive(Debug, Clone)]
pub struct MediaIndex {
    captures_directory: String,
}

// ---------------------------------------------------------------------------
// Record identifiers and validation.

/// A non-empty identifier of ASCII letters, digits, `-` and `_`.
pub open spec fn safe_record_id(id: Seq<char>) -> bool {
    encode_utf8(id).len() > 0 && forall|i: int| 0 <= i < encode_utf8(id).len() ==> token_byte(#[trigger] encode_utf8(id)[i], false)
}

pub fn is_safe_record_id(id: &str) -> (r: bool)
    ensures
        r == safe_record_id(id@),
{
    let bytes = id.as_bytes();
    if bytes.len() == 0 {
        return false;
    }
    let mut i: usize = 0;
    while i < bytes.len()
        invariant
            bytes@ == encode_utf8(id@),
            i <= bytes@.len(),
            forall|k: int| 0 <= k < i ==> token_byte(#[trigger] bytes@[k], false),
        decreases bytes.len() - i,
    {
        let b = bytes[i];
        if !((0x30 <= b && b <= 0x39) || (0x41 <= b && b <= 0x5a) || (0x61 <= b && b <= 0x7a) || b == 0x2d || b == 0x5f) {
            return false;
        }
        i = i + 1;
    }
    true
}

pub open spec fn opt_text(o: Option<String>) -> Seq<char> {
    match o {
        Some(s) => s@,
        None => Seq::empty(),
    }
}

/// Why a record is not a valid index record, as the message of the error.
pub open spec fn record_error(r: MediaIndexEntry) -> Option<Seq<char>> {
    if r.schema_version != MEDIA_RECORD_SCHEMA_VERSION || !safe_record_id(r.id@) {
        Some("invalid media record envelope"@)
    } else {
        match r.state {
            AssetState::Finalized => match r.asset {
                None => Some("finalized media record has no asset"@),
                Some(a) => if a.id@ != r.id@ || a.media_type != r.media_type || a.state != AssetState::Finalized
                    || a.original.path@ != r.resource_path@ || r.error is Some {
                    Some("finalized media record is inconsistent"@)
                } else {
                    None
                },
            },
            AssetState::Failed => if r.asset is Some || blank(opt_text(r.error)) {
                Some("failed media record is inconsistent"@)
            } else {
                None
            },
            AssetState::Incomplete => if r.asset is Some || r.error is Some {
                Some("incomplete media record is inconsistent"@)
            } else {
                None
            },
        }
    }
}

/// Checks a record's envelope and the consistency of its state.
pub fn validate_record(record: &MediaIndexEntry) -> (r: Result<(), CameraError>)
    ensures
        match record_error(*record) {
            Some(m) => r matches Err(e) && e.0@ == m,
            None => r is Ok,
        },
{
    proof {
        reveal_strlit("invalid media record envelope");
        reveal_strlit("finalized media record has no asset");
        reveal_strlit("finalized media record is inconsistent");
        reveal_strlit("failed media record is inconsistent");
        reveal_strlit("incomplete media record is inconsistent");
    }
    if record.schema_version != MEDIA_RECORD_SCHEMA_VERSION || !is_safe_record_id(record.id.as_str()) {
        return Err(camera_error("invalid media record envelope"));
    }
    match record.state {
        AssetState::Finalized => {
            let asset = match &record.asset {
                Some(a) => a,
                None => return Err(camera_error("finalized media record has no asset")),
            };
            if asset.id != record.id || asset.media_type != record.media_type || asset.state != AssetState::Finalized
                || asset.original.path != record.resource_path || record.error.is_some() {
                return Err(camera_error("finalized media record is inconsistent"));
            }
        },
        AssetState::Failed => {
            let blank_error = match &record.error {
                Some(e) => is_blank(e.as_str()),
                None => {
                    assert(blank(Seq::<char>::empty()));
                    true
                },
            };
            if record.asset.is_some() || blank_error {
                return Err(camera_error("failed media record is inconsistent"));
            }
        },
        AssetState::Incomplete => {
            if record.asset.is_some() || record.error.is_some() {
                return Err(camera_error("incomplete media record is inconsistent"));
            }
        },
    }
    Ok(())
}

// ---------------------------------------------------------------------------
// File names.

/// The position of the dot that starts a file name's extension: the last dot,
/// unless it is the first character.
pub open spec fn extension_dot(name: Seq<char>) -> Option<int> {
    if exists|i: int| 0 < i < name.len() && name[i] == '.' {
        Some(choose|i: int| 0 < i < name.len() && name[i] == '.' && forall|k: int| i < k < name.len() ==> name[k] != '.')
    } else {
        None
    }
}

pub open spec fn ascii_lower(c: char) -> char {
    if 'A' <= c <= 'Z' {
        ((c as u32) + 32) as char
    } else {
        c
    }
}

pub open spec fn lowered(s: Seq<char>) -> Seq<char> {
    s.map_values(|c: char| ascii_lower(c))
}

/// The media kind a lower-cased extension names.
pub open spec fn media_kind_of(ext: Seq<char>) -> Option<CapturedMediaType> {
    if ext == "jpg"@ || ext == "jpeg"@ || ext == "heif"@ || ext == "heic"@ || ext == "dng"@ || ext == "png"@ {
        Some(CapturedMediaType::Photo)
    } else if ext == "mov"@ || ext == "mp4"@ {
        Some(CapturedMediaType::Video)
    } else {
        None
    }
}

/// The record identifier (the file stem) and media kind a captured file's
/// name carries, if its extension is a known media kind.
pub open spec fn media_identity_spec(name: Seq<char>) -> Option<(Seq<char>, CapturedMediaType)> {
    match extension_dot(name) {
        None => None,
        Some(d) => match media_kind_of(lowered(name.subrange(d + 1, name.len() as int))) {
            None => None,
            Some(k) => Some((name.subrange(0, d), k)),
        },
    }
}

proof fn lemma_last_dot(name: Seq<char>, d: int)
    requires
        0 < d < name.len(),
        name[d] == '.',
        forall|k: int| d < k < name.len() ==> name[k] != '.',
    ensures
        extension_dot(name) == Some(d),
{
    let i = choose|i: int| 0 < i < name.len() && name[i] == '.' && forall|k: int| i < k < name.len() ==> name[k] != '.';
    if i < d {
        assert(name[d] != '.');
    }
    if i > d {
        assert(name[i] != '.');
    }
}

/// A captured file is named by its record id, a dot and an extension,
/// which is read without regard to ASCII case: the movie extensions `mov`
/// and `mp4` identify a video and the photo extensions `jpg`, `jpeg`,
/// `heif`, `heic`, `dng` and `png` a photo, each under the id before the
/// dot; any other extension identifies nothing.
pub proof fn law_capture_names_identify_their_record(stem: Seq<char>, ext: Seq<char>)
    requires
        stem.len() > 0,
        !ext.contains('.'),
    ensures
        lowered(ext) == "mov"@ || lowered(ext) == "mp4"@ ==> media_identity_spec(stem + "."@ + ext) == Some(
            (stem, CapturedMediaType::Video),
        ),
        lowered(ext) == "jpg"@ || lowered(ext) == "jpeg"@ || lowered(ext) == "heif"@ || lowered(ext) == "heic"@
            || lowered(ext) == "dng"@ || lowered(ext) == "png"@ ==> media_identity_spec(stem + "."@ + ext) == Some(
            (stem, CapturedMediaType::Photo),
        ),
        !(lowered(ext) == "mov"@ || lowered(ext) == "mp4"@ || lowered(ext) == "jpg"@ || lowered(ext) == "jpeg"@
            || lowered(ext) == "heif"@ || lowered(ext) == "heic"@ || lowered(ext) == "dng"@ || lowered(ext)
            == "png"@) ==> media_identity_spec(stem + "."@ + ext) is None,
{
    reveal_strlit(".");
    reveal_strlit("mov");
    reveal_strlit("mp4");
    reveal_strlit("jpg");
    reveal_strlit("jpeg");
    reveal_strlit("heif");
    reveal_strlit("heic");
    reveal_strlit("dng");
    reveal_strlit("png");
    let name = stem + "."@ + ext;
    let d = stem.len() as int;
    assert(name[d] == '.');
    assert forall|k: int| d < k < name.len() implies name[k] != '.' by {
        assert(name[k] == ext[k - d - 1]);
        if ext[k - d - 1] == '.' {
            assert(ext.contains('.'));
        }
    }
    lemma_last_dot(name, d);
    assert(name.subrange(d + 1, name.len() as int) =~= ext);
    assert(name.subrange(0, d) =~= stem);
    let l = lowered(ext);
    if l == "mov"@ || l == "mp4"@ {
        assert(l[0] == 'm');
        assert("jpg"@[0] != 'm' && "jpeg"@[0] != 'm' && "heif"@[0] != 'm' && "heic"@[0] != 'm');
        assert("dng"@[0] != 'm' && "png"@[0] != 'm');
    }
}

/// Where the extension dot of `name` is, if there is one.
fn find_extension_dot(name: &Vec<char>) -> (r: Option<usize>)
    ensures
        r matches Some(d) ==> extension_dot(name@) == Some(d as int) && 0 < d < name@.len(),
        r is None ==> extension_dot(name@) is None,
{
    let mut i: usize = name.len();
    while i > 1
        invariant
            i <= name@.len(),
            forall|k: int| i <= k < name@.len() ==> name@[k] != '.',
        decreases i,
    {
        if name[i - 1] == '.' {
            proof {
                lemma_last_dot(name@, i - 1);
            }
            return Some(i - 1);
        }
        i = i - 1;
    }
    assert(!(exists|k: int| 0 < k < name@.len() && name@[k] == '.')) by {
        if exists|k: int| 0 < k < name@.len() && name@[k] == '.' {
            let k = choose|k: int| 0 < k < name@.len() && name@[k] == '.';
            assert(k >= i);
        }
    }
    None
}

fn lower_slice(name: &Vec<char>, start: usize) -> (r: Vec<char>)
    requires
        start <= name@.len(),
    ensures
        r@ == lowered(name@.subrange(start as int, name@.len() as int)),
{
    let mut out: Vec<char> = Vec::new();
    let mut i = start;
    while i < name.len()
        invariant
            start <= i <= name@.len(),
            out@ == lowered(name@.subrange(start as int, i as int)),
        decreases name.len() - i,
    {
        let c = name[i];
        let l = if 'A' <= c && c <= 'Z' {
            ((c as u32) + 32) as u8 as char
        } else {
            c
        };
        assert(l == ascii_lower(c));
        out.push(l);
        i = i + 1;
        assert(out@ =~= lowered(name@.subrange(start as int, i as int)));
    }
    out
}

fn chars_equal(a: &Vec<char>, b: &str) -> (r: bool)
    ensures
        r == (a@ == b@),
{
    let s = string_of(a);
    str_eq(s.as_str(), b)
}

fn media_kind(ext: &Vec<char>) -> (r: Option<CapturedMediaType>)
    ensures
        r == media_kind_of(ext@),
{
    if chars_equal(ext, "jpg") || chars_equal(ext, "jpeg") || chars_equal(ext, "heif") || chars_equal(ext, "heic")
        || chars_equal(ext, "dng") || chars_equal(ext, "png") {
        Some(CapturedMediaType::Photo)
    } else if chars_equal(ext, "mov") || chars_equal(ext, "mp4") {
        Some(CapturedMediaType::Video)
    } else {
        None
    }
}

fn prefix_string(v: &Vec<char>, end: usize) -> (r: String)
    requires
        end <= v@.len(),
    ensures
        r@ == v@.subrange(0, end as int),
{
    let mut s = String::new();
    let mut i: usize = 0;
    while i < end
        invariant
            i <= end <= v@.len(),
            s@ == v@.subrange(0, i as int),
        decreases end - i,
    {
        push_char(&mut s, v[i]);
        i = i + 1;
        assert(s@ =~= v@.subrange(0, i as int));
    }
    s
}

/// The record identifier and media kind of a captured file, from its name.
pub fn media_identity(file_name: &str) -> (r: Option<(String, CapturedMediaType)>)
    ensures
        match media_identity_spec(file_name@) {
            None => r is None,
            Some((id, kind)) => r matches Some((s, k)) && s@ == id && k == kind,
        },
{
    let name = chars_of(file_name);
    let dot = match find_extension_dot(&name) {
        Some(d) => d,
        None => return None,
    };
    let _n: usize = name.len();
    let ext = lower_slice(&name, dot + 1);
    let kind = match media_kind(&ext) {
        Some(k) => k,
        None => return None,
    };
    Some((prefix_string(&name, dot), kind))
}

/// A name ending in `.json.partial`: a manifest still being written.
pub open spec fn partial_manifest_name(name: Seq<char>) -> bool {
    name.len() >= 13 && name.subrange(name.len() - 13, name.len() as int) == ".json.partial"@
}

pub fn is_partial_manifest(file_name: &str) -> (r: bool)
    ensures
        r == partial_manifest_name(file_name@),
{
    proof {
        reveal_strlit(".json.partial");
    }
    let name = chars_of(file_name);
    if name.len() < 13 {
        return false;
    }
    let suffix: Vec<char> = vec!['.', 'j', 's', 'o', 'n', '.', 'p', 'a', 'r', 't', 'i', 'a', 'l'];
    let n: usize = name.len();
    let start = n - 13;
    let mut i: usize = 0;
    while i < 13
        invariant
            name@ == file_name@,
            name@.len() >= 13,
            n == name@.len(),
            start == n - 13,
            suffix@.len() == 13,
            suffix@ == ".json.partial"@,
            i <= 13,
            forall|k: int| 0 <= k < i ==> name@[start + k] == suffix@[k],
        decreases 13 - i,
    {
        if name[start + i] != suffix[i] {
            assert(name@.subrange(start as int, name@.len() as int)[i as int] != ".json.partial"@[i as int]);
            return false;
        }
        i = i + 1;
    }
    assert(name@.subrange(start as int, name@.len() as int) =~= ".json.partial"@);
    true
}

/// A name whose extension is `json` (a finished manifest).
pub open spec fn json_name(name: Seq<char>) -> bool {
    match extension_dot(name) {
        None => false,
        Some(d) => name.subrange(d + 1, name.len() as int) == "json"@,
    }
}

pub fn has_json_extension(file_name: &str) -> (r: bool)
    ensures
        r == json_name(file_name@),
{
    let name = chars_of(file_name);
    match find_extension_dot(&name) {
        None => false,
        Some(d) => {
            let _n: usize = name.len();
            let mut ext: Vec<char> = Vec::new();
            let mut i = d + 1;
            while i < name.len()
                invariant
                    d + 1 <= i <= name@.len(),
                    ext@ == name@.subrange(d + 1, i as int),
                decreases name.len() - i,
            {
                ext.push(name[i]);
                i = i + 1;
                assert(ext@ =~= name@.subrange(d + 1, i as int));
            }
            chars_equal(&ext, "json")
        },
    }
}

// ---------------------------------------------------------------------------
// The order of record identifiers.

/// Lexicographic order of code points (the order of `String`s).
pub open spec fn text_lt(a: Seq<char>, b: Seq<char>) -> bool
    decreases a.len(),
{
    if a.len() == 0 {
        b.len() > 0
    } else if b.len() == 0 {
        false
    } else if a[0] < b[0] {
        true
    } else if a[0] > b[0] {
        false
    } else {
        text_lt(a.drop_first(), b.drop_first())
    }
}

pub proof fn lemma_text_lt_irreflexive(a: Seq<char>)
    ensures
        !text_lt(a, a),
    decreases a.len(),
{
    if a.len() > 0 {
        lemma_text_lt_irreflexive(a.drop_first());
    }
}

pub proof fn lemma_text_lt_total(a: Seq<char>, b: Seq<char>)
    ensures
        a == b || text_lt(a, b) || text_lt(b, a),
        !(text_lt(a, b) && text_lt(b, a)),
    decreases a.len(),
{
    if a.len() > 0 && b.len() > 0 {
        lemma_text_lt_total(a.drop_first(), b.drop_first());
        if a[0] == b[0] && a.drop_first() == b.drop_first() {
            assert(a =~= seq![a[0]] + a.drop_first());
            assert(b =~= seq![b[0]] + b.drop_first());
        }
    } else if a.len() == 0 && b.len() == 0 {
        assert(a =~= b);
    }
}

pub proof fn lemma_text_lt_transitive(a: Seq<char>, b: Seq<char>, c: Seq<char>)
    requires
        text_lt(a, b),
        text_lt(b, c),
    ensures
        text_lt(a, c),
    decreases a.len(),
{
    if a.len() > 0 && b.len() > 0 && c.len() > 0 {
        if a[0] == b[0] && b[0] == c[0] {
            lemma_text_lt_transitive(a.drop_first(), b.drop_first(), c.drop_first());
        }
    }
}

/// Whether `a` orders before `b`.
pub fn text_before(a: &str, b: &str) -> (r: bool)
    ensures
        r == text_lt(a@, b@),
{
    let x = chars_of(a);
    let y = chars_of(b);
    let mut i: usize = 0;
    assert(a@.subrange(0, a@.len() as int) =~= a@);
    assert(b@.subrange(0, b@.len() as int) =~= b@);
    while i < x.len() && i < y.len() && x[i] == y[i]
        invariant
            x@ == a@,
            y@ == b@,
            i <= x@.len(),
            i <= y@.len(),
            text_lt(a@, b@) == text_lt(a@.subrange(i as int, a@.len() as int), b@.subrange(i as int, b@.len() as int)),
        decreases x.len() - i,
    {
        let ghost sa = a@.subrange(i as int, a@.len() as int);
        let ghost sb = b@.subrange(i as int, b@.len() as int);
        assert(sa.drop_first() =~= a@.subrange(i + 1, a@.len() as int));
        assert(sb.drop_first() =~= b@.subrange(i + 1, b@.len() as int));
        assert(sa[0] == x@[i as int] && sb[0] == y@[i as int]);
        i = i + 1;
    }
    let ghost sa = a@.subrange(i as int, a@.len() as int);
    let ghost sb = b@.subrange(i as int, b@.len() as int);
    if i == x.len() {
        return i < y.len();
    }
    if i == y.len() {
        return false;
    }
    assert(sa[0] == x@[i as int] && sb[0] == y@[i as int]);
    x[i] < y[i]
}

/// Identifiers strictly increase along the list.
pub open spec fn sorted_by_id(v: Seq<MediaIndexEntry>) -> bool {
    forall|i: int, j: int| 0 <= i < j < v.len() ==> text_lt((#[trigger] v[i]).id@, (#[trigger] v[j]).id@)
}

pub open spec fn has_entry_id(v: Seq<MediaIndexEntry>, id: Seq<char>) -> bool {
    exists|i: int| 0 <= i < v.len() && (#[trigger] v[i]).id@ == id
}

/// Adds `e` at its place in the order unless an entry with its identifier is
/// already listed; whether it was added.
fn insert_by_id(v: &mut Vec<MediaIndexEntry>, e: MediaIndexEntry) -> (added: bool)
    requires
        sorted_by_id(old(v)@),
    ensures
        sorted_by_id(final(v)@),
        added == !has_entry_id(old(v)@, e.id@),
        added ==> exists|p: int| 0 <= p <= old(v)@.len() && final(v)@ == old(v)@.insert(p, e),
        !added ==> final(v)@ == old(v)@,
{
    let mut p: usize = 0;
    while p < v.len() && text_before(v[p].id.as_str(), e.id.as_str())
        invariant
            p <= v@.len(),
            sorted_by_id(v@),
            v@ == old(v)@,
            forall|k: int| 0 <= k < p ==> text_lt((#[trigger] v@[k]).id@, e.id@),
        decreases v.len() - p,
    {
        p = p + 1;
    }
    if p < v.len() && v[p].id == e.id {
        assert(v@[p as int].id@ == e.id@);
        return false;
    }
    proof {
        if p < v@.len() {
            lemma_text_lt_total(v@[p as int].id@, e.id@);
        }
        assert forall|k: int| p <= k < v@.len() implies text_lt(e.id@, (#[trigger] v@[k]).id@) by {
            if k > p {
                lemma_text_lt_transitive(e.id@, v@[p as int].id@, v@[k].id@);
            }
        }
        assert(!has_entry_id(v@, e.id@)) by {
            if has_entry_id(v@, e.id@) {
                let k = choose|k: int| 0 <= k < v@.len() && (#[trigger] v@[k]).id@ == e.id@;
                lemma_text_lt_irreflexive(e.id@);
                if k < p {
                    assert(text_lt(v@[k].id@, e.id@));
                } else {
                    assert(text_lt(e.id@, v@[k].id@));
                }
            }
        }
    }
    let ghost before = v@;
    v.insert(p, e);
    proof {
        let w = v@;
        assert(w == before.insert(p as int, e));
        assert forall|i: int, j: int| 0 <= i < j < w.len() implies text_lt((#[trigger] w[i]).id@, (#[trigger] w[j]).id@) by {
            if j < p {
                assert(w[i] == before[i] && w[j] == before[j]);
            } else if j == p {
                assert(w[i] == before[i]);
            } else if i < p {
                assert(w[i] == before[i] && w[j] == before[j - 1]);
                lemma_text_lt_transitive(before[i].id@, e.id@, before[j - 1].id@);
            } else if i == p {
                assert(w[j] == before[j - 1]);
            } else {
                assert(w[i] == before[i - 1] && w[j] == before[j - 1]);
            }
        }
    }
    true
}

proof fn lemma_insert_contains(v: Seq<MediaIndexEntry>, p: int, e: MediaIndexEntry)
    requires
        0 <= p <= v.len(),
    ensures
        forall|x: MediaIndexEntry| #[trigger] v.insert(p, e).contains(x) <==> v.contains(x) || x == e,
{
    let w = v.insert(p, e);
    assert forall|x: MediaIndexEntry| #[trigger] w.contains(x) <==> v.contains(x) || x == e by {
        if w.contains(x) {
            let j = choose|j: int| 0 <= j < w.len() && w[j] == x;
            if j < p {
                assert(v[j] == x);
            } else if j > p {
                assert(v[j - 1] == x);
            }
        }
        if v.contains(x) {
            let i = choose|i: int| 0 <= i < v.len() && v[i] == x;
            if i < p {
                assert(w[i] == x);
            } else {
                assert(w[i + 1] == x);
            }
        }
        if x == e {
            assert(w[p] == x);
        }
    }
}

/// A file found among the incomplete captures.
pub struct IncompleteFile {
    pub path: String,
    pub file_name: String,
    pub updated_at_utc: String,
}

/// What is wrong with manifest `i`, given that the ones before it were accepted.
pub open spec fn manifest_error_at(ms: Seq<Result<MediaIndexEntry, CameraError>>, i: int) -> Option<Seq<char>> {
    match ms[i] {
        Err(e) => Some(e.0@),
        Ok(r) => if record_error(r) is Some {
            record_error(r)
        } else if exists|j: int| 0 <= j < i && (#[trigger] ms[j])->Ok_0.id@ == r.id@ {
            Some("duplicate media manifest ID"@)
        } else {
            None
        },
    }
}

/// The first error among the first `k` manifests.
pub open spec fn manifests_error(ms: Seq<Result<MediaIndexEntry, CameraError>>, k: int) -> Option<Seq<char>>
    decreases k,
{
    if k <= 0 {
        None
    } else {
        match manifests_error(ms, k - 1) {
            Some(m) => Some(m),
            None => manifest_error_at(ms, k - 1),
        }
    }
}

pub open spec fn manifest_has_id(ms: Seq<Result<MediaIndexEntry, CameraError>>, id: Seq<char>) -> bool {
    exists|k: int| 0 <= k < ms.len() && (#[trigger] ms[k])->Ok_0.id@ == id
}

/// The identifier of an incomplete file, if its name carries one.
pub open spec fn candidate_id(c: IncompleteFile) -> Option<Seq<char>> {
    match media_identity_spec(c.file_name@) {
        Some((id, _)) => Some(id),
        None => None,
    }
}

/// Incomplete file `k` is the first with its identifier.
pub open spec fn first_with_id(cs: Seq<IncompleteFile>, k: int) -> bool {
    candidate_id(cs[k]) is Some && forall|j: int| 0 <= j < k ==> candidate_id(#[trigger] cs[j]) != candidate_id(cs[k])
}

/// The entry listing incomplete file `c` as an incomplete capture.
pub open spec fn incomplete_entry(e: MediaIndexEntry, c: IncompleteFile) -> bool {
    &&& media_identity_spec(c.file_name@) matches Some((id, kind))
    &&& e.schema_version == MEDIA_RECORD_SCHEMA_VERSION
    &&& e.id@ == id
    &&& e.state == AssetState::Incomplete
    &&& e.media_type == kind
    &&& e.resource_path@ == c.path@
    &&& e.asset is None
    &&& e.error is None
    &&& e.updated_at_utc@ == c.updated_at_utc@
}

/// An incomplete file is listed when its name is a media name, no manifest
/// has its identifier and no earlier incomplete file had it.
pub open spec fn listed_incomplete(ms: Seq<Result<MediaIndexEntry, CameraError>>, cs: Seq<IncompleteFile>, k: int) -> bool {
    first_with_id(cs, k) && !manifest_has_id(ms, candidate_id(cs[k])->0)
}

/// The entry is one of the manifest records.
pub open spec fn from_manifest(ms: Seq<Result<MediaIndexEntry, CameraError>>, x: MediaIndexEntry) -> bool {
    exists|q: int| 0 <= q < ms.len() && (#[trigger] ms[q])->Ok_0 == x
}

/// The entry lists one of the first `k` incomplete files.
pub open spec fn from_incomplete(
    ms: Seq<Result<MediaIndexEntry, CameraError>>,
    cs: Seq<IncompleteFile>,
    x: MediaIndexEntry,
    k: int,
) -> bool {
    exists|j: int| 0 <= j < k && listed_incomplete(ms, cs, j) && incomplete_entry(x, #[trigger] cs[j])
}

/// The listing of the index: every manifest record and every listed
/// incomplete file, each once, in identifier order.
pub open spec fn is_index_listing(
    v: Seq<MediaIndexEntry>,
    ms: Seq<Result<MediaIndexEntry, CameraError>>,
    cs: Seq<IncompleteFile>,
) -> bool {
    &&& sorted_by_id(v)
    &&& forall|k: int| 0 <= k < ms.len() ==> v.contains(#[trigger] ms[k]->Ok_0)
    &&& forall|k: int| 0 <= k < cs.len() && listed_incomplete(ms, cs, k) ==> exists|i: int|
        0 <= i < v.len() && incomplete_entry(#[trigger] v[i], cs[k])
    &&& forall|i: int| 0 <= i < v.len() ==> from_manifest(ms, #[trigger] v[i]) || from_incomplete(ms, cs, v[i], cs.len() as int)
}

proof fn lemma_manifests_error_push(
    ms: Seq<Result<MediaIndexEntry, CameraError>>,
    x: Result<MediaIndexEntry, CameraError>,
    k: int,
)
    requires
        0 <= k <= ms.len(),
    ensures
        manifests_error(ms.push(x), k) == manifests_error(ms, k),
    decreases k,
{
    if k > 0 {
        lemma_manifests_error_push(ms, x, k - 1);
        let w = ms.push(x);
        assert(w[k - 1] == ms[k - 1]);
        assert forall|j: int| 0 <= j < k - 1 implies #[trigger] w[j] == ms[j] by {}
        assert((exists|j: int| 0 <= j < k - 1 && (#[trigger] w[j])->Ok_0.id@ == w[k - 1]->Ok_0.id@) == (exists|j: int|
            0 <= j < k - 1 && (#[trigger] ms[j])->Ok_0.id@ == ms[k - 1]->Ok_0.id@)) by {
            if exists|j: int| 0 <= j < k - 1 && (#[trigger] ms[j])->Ok_0.id@ == ms[k - 1]->Ok_0.id@ {
                let j = choose|j: int| 0 <= j < k - 1 && (#[trigger] ms[j])->Ok_0.id@ == ms[k - 1]->Ok_0.id@;
                assert(w[j] == ms[j]);
            }
        }
    }
}

/// What the index writes, it lists: a record that passes validation (as
/// every record `persist_finalized` and `record_failed` give back does),
/// added to records that list without error and hold none of its
/// identifier, still lists without error, and every listing holds it.
pub proof fn law_written_records_are_listed(
    ms: Seq<Result<MediaIndexEntry, CameraError>>,
    record: MediaIndexEntry,
    cs: Seq<IncompleteFile>,
    v: Seq<MediaIndexEntry>,
)
    requires
        manifests_error(ms, ms.len() as int) is None,
        record_error(record) is None,
        forall|k: int| 0 <= k < ms.len() ==> (#[trigger] ms[k])->Ok_0.id@ != record.id@,
    ensures
        manifests_error(ms.push(Ok(record)), ms.len() + 1int) is None,
        is_index_listing(v, ms.push(Ok(record)), cs) ==> v.contains(record),
{
    let w = ms.push(Ok::<MediaIndexEntry, CameraError>(record));
    lemma_manifests_error_push(ms, Ok(record), ms.len() as int);
    assert(w[ms.len() as int] == Ok::<MediaIndexEntry, CameraError>(record));
    assert(!(exists|j: int| 0 <= j < ms.len() && (#[trigger] w[j])->Ok_0.id@ == record.id@)) by {
        if exists|j: int| 0 <= j < ms.len() && (#[trigger] w[j])->Ok_0.id@ == record.id@ {
            let j = choose|j: int| 0 <= j < ms.len() && (#[trigger] w[j])->Ok_0.id@ == record.id@;
            assert(w[j] == ms[j]);
        }
    }
    assert(manifest_error_at(w, ms.len() as int) is None);
    if is_index_listing(v, w, cs) {
        assert(v.contains(w[ms.len() as int]->Ok_0));
    }
}

proof fn lemma_manifests_error_sticks(ms: Seq<Result<MediaIndexEntry, CameraError>>, i: int, k: int)
    requires
        0 <= i < k,
        manifests_error(ms, i + 1) is Some,
    ensures
        manifests_error(ms, k) == manifests_error(ms, i + 1),
    decreases k - i,
{
    if k > i + 1 {
        lemma_manifests_error_sticks(ms, i, k - 1);
    }
}

fn collect_manifests(ms: Vec<Result<MediaIndexEntry, CameraError>>) -> (r: Result<Vec<MediaIndexEntry>, CameraError>)
    ensures
        match manifests_error(ms@, ms@.len() as int) {
            Some(m) => r matches Err(e) && e.0@ == m,
            None => r matches Ok(v) && sorted_by_id(v@) && (forall|k: int| 0 <= k < ms@.len() ==> (#[trigger] ms@[k]) is Ok
                && v@.contains(ms@[k]->Ok_0)) && (forall|i: int| 0 <= i < v@.len() ==> from_manifest(ms@, #[trigger] v@[i])),
        },
{
    proof {
        reveal_strlit("duplicate media manifest ID");
    }
    let ghost all = ms@;
    let mut remaining = ms;
    let mut v: Vec<MediaIndexEntry> = Vec::new();
    let mut k: usize = 0;
    let n = remaining.len();
    while k < n
        invariant
            all == ms@,
            n == all.len(),
            k <= n,
            remaining@ == all.subrange(k as int, n as int),
            manifests_error(all, k as int) is None,
            sorted_by_id(v@),
            forall|j: int| 0 <= j < k ==> (#[trigger] all[j]) is Ok && v@.contains(all[j]->Ok_0),
            forall|i: int| 0 <= i < v@.len() ==> from_manifest(all.subrange(0, k as int), #[trigger] v@[i]),
        decreases n - k,
    {
        let item = remaining.remove(0);
        assert(item == all[k as int]);
        assert(remaining@ =~= all.subrange(k + 1, n as int));
        let record = match item {
            Err(e) => {
                assert(manifests_error(all, k + 1) == Some(e.0@));
                proof {
                    if k + 1 < n {
                        lemma_manifests_error_sticks(all, k as int, n as int);
                    }
                }
                return Err(e);
            },
            Ok(record) => record,
        };
        match validate_record(&record) {
            Ok(()) => {},
            Err(e) => {
                assert(manifests_error(all, k + 1) == Some(e.0@));
                proof {
                    if k + 1 < n {
                        lemma_manifests_error_sticks(all, k as int, n as int);
                    }
                }
                return Err(e);
            },
        }
        let ghost before = v@;
        let ghost rec = record;
        let added = insert_by_id(&mut v, record);
        if !added {
            assert(exists|j: int| 0 <= j < k && (#[trigger] all[j])->Ok_0.id@ == rec.id@) by {
                let i = choose|i: int| 0 <= i < before.len() && (#[trigger] before[i]).id@ == rec.id@;
                assert(from_manifest(all.subrange(0, k as int), before[i]));
                let j = choose|j: int| 0 <= j < k && (#[trigger] all.subrange(0, k as int)[j])->Ok_0 == before[i];
                assert(all[j]->Ok_0.id@ == rec.id@);
            }
            let e = camera_error("duplicate media manifest ID");
            assert(manifests_error(all, k + 1) == Some(e.0@));
            proof {
                if k + 1 < n {
                    lemma_manifests_error_sticks(all, k as int, n as int);
                }
            }
            return Err(e);
        }
        proof {
            assert(!(exists|j: int| 0 <= j < k && (#[trigger] all[j])->Ok_0.id@ == rec.id@)) by {
                if exists|j: int| 0 <= j < k && (#[trigger] all[j])->Ok_0.id@ == rec.id@ {
                    let j = choose|j: int| 0 <= j < k && (#[trigger] all[j])->Ok_0.id@ == rec.id@;
                    assert(before.contains(all[j]->Ok_0));
                    let i = choose|i: int| 0 <= i < before.len() && before[i] == all[j]->Ok_0;
                    assert(has_entry_id(before, rec.id@));
                }
            }
            let p = choose|p: int| 0 <= p <= before.len() && v@ == before.insert(p, rec);
            lemma_insert_contains(before, p, rec);
            assert forall|j: int| 0 <= j < k + 1 implies (#[trigger] all[j]) is Ok && v@.contains(all[j]->Ok_0) by {
                if j < k {
                    assert(before.contains(all[j]->Ok_0));
                }
            }
            assert forall|i: int| 0 <= i < v@.len() implies from_manifest(all.subrange(0, k + 1), #[trigger] v@[i]) by {
                assert(v@.contains(v@[i]));
                if v@[i] != rec {
                    assert(before.contains(v@[i]));
                    let q = choose|q: int| 0 <= q < before.len() && before[q] == v@[i];
                    assert(from_manifest(all.subrange(0, k as int), before[q]));
                    let j = choose|j: int| 0 <= j < k && (#[trigger] all.subrange(0, k as int)[j])->Ok_0 == before[q];
                    assert(all.subrange(0, k + 1)[j] == all[j]);
                } else {
                    assert(all.subrange(0, k + 1)[k as int] == all[k as int]);
                }
            }
        }
        k = k + 1;
    }
    assert(all.subrange(0, n as int) =~= all);
    Ok(v)
}

/// The listing after the first `k` incomplete files were considered.
#[verifier::opaque]
pub open spec fn listing_so_far(
    v: Seq<MediaIndexEntry>,
    ms: Seq<Result<MediaIndexEntry, CameraError>>,
    cs: Seq<IncompleteFile>,
    k: int,
) -> bool {
    &&& sorted_by_id(v)
    &&& forall|q: int| 0 <= q < ms.len() ==> (#[trigger] ms[q]) is Ok && v.contains(ms[q]->Ok_0)
    &&& forall|j: int| 0 <= j < k && listed_incomplete(ms, cs, j) ==> exists|i: int|
        0 <= i < v.len() && incomplete_entry(#[trigger] v[i], cs[j])
    &&& forall|i: int| 0 <= i < v.len() ==> from_manifest(ms, #[trigger] v[i]) || from_incomplete(ms, cs, v[i], k)
    &&& forall|id: Seq<char>| #[trigger] has_entry_id(v, id) <==> (manifest_has_id(ms, id) || exists|j: int|
        0 <= j < k && candidate_id(#[trigger] cs[j]) == Some(id))
}

proof fn lemma_listing_start(v: Seq<MediaIndexEntry>, ms: Seq<Result<MediaIndexEntry, CameraError>>, cs: Seq<IncompleteFile>)
    requires
        sorted_by_id(v),
        forall|k: int| 0 <= k < ms.len() ==> (#[trigger] ms[k]) is Ok && v.contains(ms[k]->Ok_0),
        forall|i: int| 0 <= i < v.len() ==> from_manifest(ms, #[trigger] v[i]),
    ensures
        listing_so_far(v, ms, cs, 0),
{
    reveal(listing_so_far);
    assert forall|id: Seq<char>| #[trigger] has_entry_id(v, id) <==> manifest_has_id(ms, id) by {
        if has_entry_id(v, id) {
            let i = choose|i: int| 0 <= i < v.len() && (#[trigger] v[i]).id@ == id;
            assert(from_manifest(ms, v[i]));
            let k = choose|k: int| 0 <= k < ms.len() && (#[trigger] ms[k])->Ok_0 == v[i];
            assert(ms[k]->Ok_0.id@ == id);
        }
        if manifest_has_id(ms, id) {
            let k = choose|k: int| 0 <= k < ms.len() && (#[trigger] ms[k])->Ok_0.id@ == id;
            assert(v.contains(ms[k]->Ok_0));
            let i = choose|i: int| 0 <= i < v.len() && v[i] == ms[k]->Ok_0;
            assert(v[i].id@ == id);
        }
    }
}

proof fn lemma_listing_skip(v: Seq<MediaIndexEntry>, ms: Seq<Result<MediaIndexEntry, CameraError>>, cs: Seq<IncompleteFile>, k: int)
    requires
        0 <= k < cs.len(),
        listing_so_far(v, ms, cs, k),
        candidate_id(cs[k]) is None,
    ensures
        listing_so_far(v, ms, cs, k + 1),
{
    reveal(listing_so_far);
    assert forall|id: Seq<char>| #[trigger] has_entry_id(v, id) <==> (manifest_has_id(ms, id) || exists|j: int|
        0 <= j < k + 1 && candidate_id(#[trigger] cs[j]) == Some(id)) by {
        if exists|j: int| 0 <= j < k + 1 && candidate_id(#[trigger] cs[j]) == Some(id) {
            let j = choose|j: int| 0 <= j < k + 1 && candidate_id(#[trigger] cs[j]) == Some(id);
            assert(j < k);
        }
    }
}

proof fn lemma_added_iff_listed(
    before: Seq<MediaIndexEntry>,
    ms: Seq<Result<MediaIndexEntry, CameraError>>,
    cs: Seq<IncompleteFile>,
    k: int,
    entry: MediaIndexEntry,
)
    requires
        0 <= k < cs.len(),
        listing_so_far(before, ms, cs, k),
        incomplete_entry(entry, cs[k]),
    ensures
        !has_entry_id(before, entry.id@) <==> listed_incomplete(ms, cs, k),
        candidate_id(cs[k]) == Some(entry.id@),
{
    reveal(listing_so_far);
    let cid = entry.id@;
    assert(candidate_id(cs[k]) == Some(cid));
    if has_entry_id(before, cid) {
        if !manifest_has_id(ms, cid) {
            let j = choose|j: int| 0 <= j < k && candidate_id(#[trigger] cs[j]) == Some(cid);
            assert(!first_with_id(cs, k));
        }
    } else {
        assert forall|j: int| 0 <= j < k implies candidate_id(#[trigger] cs[j]) != candidate_id(cs[k]) by {
            if candidate_id(cs[j]) == Some(cid) {
                assert(has_entry_id(before, cid));
            }
        }
    }
}

#[verifier::rlimit(100)]
#[verifier::spinoff_prover]
proof fn lemma_listing_added(
    before: Seq<MediaIndexEntry>,
    after: Seq<MediaIndexEntry>,
    ms: Seq<Result<MediaIndexEntry, CameraError>>,
    cs: Seq<IncompleteFile>,
    k: int,
    entry: MediaIndexEntry,
    p: int,
)
    requires
        0 <= k < cs.len(),
        listing_so_far(before, ms, cs, k),
        incomplete_entry(entry, cs[k]),
        sorted_by_id(after),
        listed_incomplete(ms, cs, k),
        candidate_id(cs[k]) == Some(entry.id@),
        0 <= p <= before.len(),
        after == before.insert(p, entry),
    ensures
        listing_so_far(after, ms, cs, k + 1),
{
    reveal(listing_so_far);
    let cid = entry.id@;
    lemma_insert_contains(before, p, entry);
    assert(after[p] == entry);
    assert forall|q: int| 0 <= q < ms.len() implies (#[trigger] ms[q]) is Ok && after.contains(ms[q]->Ok_0) by {
        assert(before.contains(ms[q]->Ok_0));
    }
    assert forall|j: int| 0 <= j < k + 1 && listed_incomplete(ms, cs, j) implies exists|i: int|
        0 <= i < after.len() && incomplete_entry(#[trigger] after[i], cs[j]) by {
        if j < k {
            let i = choose|i: int| 0 <= i < before.len() && incomplete_entry(#[trigger] before[i], cs[j]);
            assert(after.contains(before[i]));
            let i2 = choose|i2: int| 0 <= i2 < after.len() && after[i2] == before[i];
            assert(incomplete_entry(after[i2], cs[j]));
        } else {
            assert(incomplete_entry(after[p], cs[j]));
        }
    }
    assert forall|i: int| 0 <= i < after.len() implies from_manifest(ms, #[trigger] after[i]) || from_incomplete(ms, cs, after[i], k + 1) by {
        assert(after.contains(after[i]));
        if after[i] == entry {
            assert(listed_incomplete(ms, cs, k) && incomplete_entry(after[i], cs[k]));
        } else {
            assert(before.contains(after[i]));
            let b = choose|b: int| 0 <= b < before.len() && before[b] == after[i];
            assert(from_manifest(ms, before[b]) || from_incomplete(ms, cs, before[b], k));
            if from_incomplete(ms, cs, before[b], k) {
                let j = choose|j: int| 0 <= j < k && listed_incomplete(ms, cs, j) && incomplete_entry(before[b], #[trigger] cs[j]);
                assert(incomplete_entry(after[i], cs[j]));
            }
        }
    }
    assert forall|id: Seq<char>| #[trigger] has_entry_id(after, id) <==> (manifest_has_id(ms, id) || exists|j: int|
        0 <= j < k + 1 && candidate_id(#[trigger] cs[j]) == Some(id)) by {
        if has_entry_id(after, id) {
            let i = choose|i: int| 0 <= i < after.len() && (#[trigger] after[i]).id@ == id;
            assert(after.contains(after[i]));
            if after[i] != entry {
                assert(before.contains(after[i]));
                let b = choose|b: int| 0 <= b < before.len() && before[b] == after[i];
                assert(has_entry_id(before, id));
            }
        }
        if has_entry_id(before, id) {
            let b = choose|b: int| 0 <= b < before.len() && (#[trigger] before[b]).id@ == id;
            assert(after.contains(before[b]));
            let i = choose|i: int| 0 <= i < after.len() && after[i] == before[b];
            assert(has_entry_id(after, id));
        }
        if id == cid {
            assert(has_entry_id(after, id));
        }
        if exists|j: int| 0 <= j < k + 1 && candidate_id(#[trigger] cs[j]) == Some(id) {
            let j = choose|j: int| 0 <= j < k + 1 && candidate_id(#[trigger] cs[j]) == Some(id);
            if j < k {
                assert(has_entry_id(before, id));
            }
        }
    }
}

proof fn lemma_listing_kept(
    v: Seq<MediaIndexEntry>,
    ms: Seq<Result<MediaIndexEntry, CameraError>>,
    cs: Seq<IncompleteFile>,
    k: int,
    entry: MediaIndexEntry,
)
    requires
        0 <= k < cs.len(),
        listing_so_far(v, ms, cs, k),
        incomplete_entry(entry, cs[k]),
        !listed_incomplete(ms, cs, k),
        has_entry_id(v, entry.id@),
        candidate_id(cs[k]) == Some(entry.id@),
    ensures
        listing_so_far(v, ms, cs, k + 1),
{
    reveal(listing_so_far);
    let cid = entry.id@;
    assert forall|j: int| 0 <= j < k + 1 && listed_incomplete(ms, cs, j) implies exists|i: int|
        0 <= i < v.len() && incomplete_entry(#[trigger] v[i], cs[j]) by {
        assert(j < k);
    }
    assert forall|id: Seq<char>| #[trigger] has_entry_id(v, id) <==> (manifest_has_id(ms, id) || exists|j: int|
        0 <= j < k + 1 && candidate_id(#[trigger] cs[j]) == Some(id)) by {
        if exists|j: int| 0 <= j < k + 1 && candidate_id(#[trigger] cs[j]) == Some(id) {
            let j = choose|j: int| 0 <= j < k + 1 && candidate_id(#[trigger] cs[j]) == Some(id);
            if j < k {
                assert(has_entry_id(v, id));
            }
        }
    }
    assert forall|i: int| 0 <= i < v.len() implies from_manifest(ms, #[trigger] v[i]) || from_incomplete(ms, cs, v[i], k + 1) by {
        assert(from_manifest(ms, v[i]) || from_incomplete(ms, cs, v[i], k));
        if from_incomplete(ms, cs, v[i], k) {
            let j = choose|j: int| 0 <= j < k && listed_incomplete(ms, cs, j) && incomplete_entry(v[i], #[trigger] cs[j]);
            assert(incomplete_entry(v[i], cs[j]));
        }
    }
}

proof fn lemma_listing_done(v: Seq<MediaIndexEntry>, ms: Seq<Result<MediaIndexEntry, CameraError>>, cs: Seq<IncompleteFile>)
    requires
        listing_so_far(v, ms, cs, cs.len() as int),
    ensures
        is_index_listing(v, ms, cs),
{
    reveal(listing_so_far);
    assert(sorted_by_id(v));
    assert(forall|k: int| 0 <= k < ms.len() ==> v.contains(#[trigger] ms[k]->Ok_0));
    assert(forall|k: int| 0 <= k < cs.len() && listed_incomplete(ms, cs, k) ==> exists|i: int|
        0 <= i < v.len() && incomplete_entry(#[trigger] v[i], cs[k]));
}

/// Lists the index from the manifests (in path order, each as read or the
/// error reading it gave) and the incomplete files (in path order).
pub fn merge_index(
    manifests: Vec<Result<MediaIndexEntry, CameraError>>,
    incomplete: Vec<IncompleteFile>,
) -> (r: Result<Vec<MediaIndexEntry>, CameraError>)
    ensures
        match manifests_error(manifests@, manifests@.len() as int) {
            Some(m) => r matches Err(e) && e.0@ == m,
            None => r matches Ok(v) && is_index_listing(v@, manifests@, incomplete@),
        },
{
    let ghost ms = manifests@;
    let ghost cs = incomplete@;
    let mut v = collect_manifests(manifests)?;
    proof {
        lemma_listing_start(v@, ms, cs);
    }
    let mut remaining = incomplete;
    let n = remaining.len();
    let mut k: usize = 0;
    while k < n
        invariant
            cs.len() == n,
            k <= n,
            remaining@ == cs.subrange(k as int, n as int),
            sorted_by_id(v@),
            listing_so_far(v@, ms, cs, k as int),
        decreases n - k,
    {
        let c = remaining.remove(0);
        assert(c == cs[k as int]);
        assert(remaining@ =~= cs.subrange(k + 1, n as int));
        match media_identity(c.file_name.as_str()) {
            None => {
                proof {
                    lemma_listing_skip(v@, ms, cs, k as int);
                }
            },
            Some((id, kind)) => {
                let entry = MediaIndexEntry {
                    schema_version: MEDIA_RECORD_SCHEMA_VERSION,
                    id,
                    state: AssetState::Incomplete,
                    media_type: kind,
                    resource_path: c.path,
                    asset: None,
                    error: None,
                    updated_at_utc: c.updated_at_utc,
                };
                assert(incomplete_entry(entry, cs[k as int]));
                let ghost before = v@;
                let ghost e = entry;
                proof {
                    lemma_added_iff_listed(before, ms, cs, k as int, e);
                }
                let added = insert_by_id(&mut v, entry);
                proof {
                    if added {
                        let p = choose|p: int| 0 <= p <= before.len() && v@ == before.insert(p, e);
                        lemma_listing_added(before, v@, ms, cs, k as int, e, p);
                    } else {
                        lemma_listing_kept(v@, ms, cs, k as int, e);
                    }
                }
            },
        }
        k = k + 1;
    }
    proof {
        lemma_listing_done(v@, ms, cs);
    }
    Ok(v)
}

// ---------------------------------------------------------------------------
// The index and its records.

/// `base` joined with a relative `name`, as `Path::join` does.
pub open spec fn join_path(base: Seq<char>, name: Seq<char>) -> Seq<char> {
    if base.len() == 0 {
        name
    } else if base.last() == '/' {
        base + name
    } else {
        base + seq!['/'] + name
    }
}

fn join(base: &str, name: &str) -> (r: String)
    ensures
        r@ == join_path(base@, name@),
{
    let n: usize = base.unicode_len();
    let mut s = owned(base);
    if n == 0 {
        return owned(name);
    }
    if base.get_char(n - 1) != '/' {
        push_char(&mut s, '/');
    }
    push_str(&mut s, name);
    s
}

pub open spec fn failed_record(
    id: String,
    media_type: CapturedMediaType,
    resource_path: String,
    error: String,
    updated_at_utc: String,
) -> MediaIndexEntry {
    MediaIndexEntry {
        schema_version: MEDIA_RECORD_SCHEMA_VERSION,
        id,
        state: AssetState::Failed,
        media_type,
        resource_path,
        asset: None,
        error: Some(error),
        updated_at_utc,
    }
}

impl MediaIndex {
    pub closed spec fn spec_root(&self) -> Seq<char> {
        self.captures_directory@
    }

    pub fn new(captures_directory: String) -> (r: Self)
        ensures
            r.spec_root() == captures_directory@,
    {
        MediaIndex { captures_directory }
    }

    pub fn captures_directory(&self) -> (r: &str)
        ensures
            r@ == self.spec_root(),
    {
        self.captures_directory.as_str()
    }

    /// Where the records are kept.
    pub fn manifests_directory(&self) -> (r: String)
        ensures
            r@ == join_path(self.spec_root(), ".manifests"@),
    {
        join(self.captures_directory.as_str(), ".manifests")
    }

    /// Where captures still being written are kept.
    pub fn incomplete_directory(&self) -> (r: String)
        ensures
            r@ == join_path(self.spec_root(), ".incomplete"@),
    {
        join(self.captures_directory.as_str(), ".incomplete")
    }

    /// The record file of `id`, and the file it is written to before being
    /// moved into place.
    pub fn manifest_paths(&self, id: &str) -> (r: (String, String))
        ensures
            r.0@ == join_path(join_path(self.spec_root(), ".manifests"@), id@ + ".json"@),
            r.1@ == join_path(join_path(self.spec_root(), ".manifests"@), id@ + ".json.partial"@),
    {
        let directory = self.manifests_directory();
        let mut name = owned(id);
        push_str(&mut name, ".json");
        let destination = join(directory.as_str(), name.as_str());
        push_str(&mut name, ".partial");
        proof {
            reveal_strlit(".json");
            reveal_strlit(".partial");
            reveal_strlit(".json.partial");
            assert(id@ + ".json"@ + ".partial"@ =~= id@ + ".json.partial"@);
        }
        let temporary = join(directory.as_str(), name.as_str());
        (destination, temporary)
    }

    /// The record to write for a finalized asset whose resource file exists
    /// (`resource_is_file`), stamped `updated_at_utc`.
    pub fn persist_finalized(&self, asset: CapturedAsset, resource_is_file: bool, updated_at_utc: String) -> (r: Result<
        MediaIndexEntry,
        CameraError,
    >)
        ensures
            asset.state != AssetState::Finalized ==> (r matches Err(e) && e.0@
                == "only finalized assets can be persisted as completed media"@),
            asset.state == AssetState::Finalized && !resource_is_file ==> (r matches Err(e) && e.0@
                == "finalized media resource does not exist: "@ + asset.original.path@),
            asset.state == AssetState::Finalized && resource_is_file ==> {
                let record = MediaIndexEntry {
                    schema_version: MEDIA_RECORD_SCHEMA_VERSION,
                    id: asset.id,
                    state: AssetState::Finalized,
                    media_type: asset.media_type,
                    resource_path: asset.original.path,
                    asset: Some(asset),
                    error: None,
                    updated_at_utc,
                };
                match record_error(record) {
                    Some(m) => r matches Err(e) && e.0@ == m,
                    None => r == Ok::<MediaIndexEntry, CameraError>(record),
                }
            },
    {
        if asset.state != AssetState::Finalized {
            return Err(camera_error("only finalized assets can be persisted as completed media"));
        }
        if !resource_is_file {
            let mut message = owned("finalized media resource does not exist: ");
            push_str(&mut message, asset.original.path.as_str());
            return Err(CameraError(message));
        }
        let record = MediaIndexEntry {
            schema_version: MEDIA_RECORD_SCHEMA_VERSION,
            id: asset.id.clone(),
            state: AssetState::Finalized,
            media_type: asset.media_type,
            resource_path: asset.original.path.clone(),
            asset: Some(asset),
            error: None,
            updated_at_utc,
        };
        validate_record(&record)?;
        Ok(record)
    }

    /// The failed record that accounts for an orphaned capture: its file
    /// is kept and reported as a finalized resource whose record is missing.
    pub fn orphan_record(&self, orphan: OrphanedResource, updated_at_utc: String) -> (r: Result<
        MediaIndexEntry,
        CameraError,
    >)
        ensures
            r is Ok <==> !blank(orphan.id@) && safe_record_id(orphan.id@),
            r is Ok ==> r->Ok_0.schema_version == MEDIA_RECORD_SCHEMA_VERSION
                && r->Ok_0.id == orphan.id && r->Ok_0.state == AssetState::Failed && r->Ok_0.media_type
                == orphan.media_type && r->Ok_0.resource_path == orphan.path && r->Ok_0.asset is None
                && r->Ok_0.error is Some && r->Ok_0.error->0@ == "orphaned finalized resource: manifest is missing"@
                && r->Ok_0.updated_at_utc == updated_at_utc,
    {
        let message = owned("orphaned finalized resource: manifest is missing");
        proof {
            reveal_strlit("orphaned finalized resource: manifest is missing");
            assert(!white_space(message@[0]));
            assert(!blank(message@));
        }
        self.record_failed(orphan.id, orphan.media_type, orphan.path, message, updated_at_utc)
    }

    /// The record to write for a capture that failed, stamped `updated_at_utc`.
    pub fn record_failed(
        &self,
        id: String,
        media_type: CapturedMediaType,
        resource_path: String,
        error: String,
        updated_at_utc: String,
    ) -> (r: Result<MediaIndexEntry, CameraError>)
        ensures
            blank(id@) || blank(error@) ==> (r matches Err(e) && e.0@ == "failed media record requires an ID and error"@),
            !blank(id@) && !blank(error@) ==> match record_error(failed_record(id, media_type, resource_path, error, updated_at_utc)) {
                Some(m) => r matches Err(e) && e.0@ == m,
                None => r == Ok::<MediaIndexEntry, CameraError>(failed_record(id, media_type, resource_path, error, updated_at_utc)),
            },
    {
        if is_blank(id.as_str()) || is_blank(error.as_str()) {
            return Err(camera_error("failed media record requires an ID and error"));
        }
        let record = MediaIndexEntry {
            schema_version: MEDIA_RECORD_SCHEMA_VERSION,
            id,
            state: AssetState::Failed,
            media_type,
            resource_path,
            asset: None,
            error: Some(error),
            updated_at_utc,
        };
        validate_record(&record)?;
        Ok(record)
    }

    /// Lists the index (see `merge_index`).
    pub fn list(
        &self,
        manifests: Vec<Result<MediaIndexEntry, CameraError>>,
        incomplete: Vec<IncompleteFile>,
    ) -> (r: Result<Vec<MediaIndexEntry>, CameraError>)
        ensures
            match manifests_error(manifests@, manifests@.len() as int) {
                Some(m) => r matches Err(e) && e.0@ == m,
                None => r matches Ok(v) && is_index_listing(v@, manifests@, incomplete@),
            },
    {
        merge_index(manifests, incomplete)
    }
}

// ---------------------------------------------------------------------------
// Reconciliation and recovery.

/// A file found in the captures directory.
pub struct CaptureFile {
    pub path: String,
    pub file_name: String,
}

/// A captured resource that no record accounts for.
pub struct OrphanedResource {
    pub id: String,
    pub media_type: CapturedMediaType,
    pub path: String,
}

/// What makes a captured file an orphan: a media name whose identifier no
/// entry has, and a path no finalized entry points at.
pub open spec fn orphan_of(indexed: Seq<MediaIndexEntry>, f: CaptureFile) -> Option<(Seq<char>, CapturedMediaType, Seq<char>)> {
    match media_identity_spec(f.file_name@) {
        None => None,
        Some((id, kind)) => if (exists|i: int| 0 <= i < indexed.len() && (#[trigger] indexed[i]).state == AssetState::Finalized
            && indexed[i].resource_path@ == f.path@) || has_entry_id(indexed, id) {
            None
        } else {
            Some((id, kind, f.path@))
        },
    }
}

/// The orphans among the files, in order.
pub open spec fn orphans_spec(indexed: Seq<MediaIndexEntry>, files: Seq<CaptureFile>) -> Seq<(Seq<char>, CapturedMediaType, Seq<char>)>
    decreases files.len(),
{
    if files.len() == 0 {
        Seq::empty()
    } else {
        let rest = orphans_spec(indexed, files.drop_last());
        match orphan_of(indexed, files.last()) {
            Some(o) => rest.push(o),
            None => rest,
        }
    }
}

pub open spec fn orphan_view(o: OrphanedResource) -> (Seq<char>, CapturedMediaType, Seq<char>) {
    (o.id@, o.media_type, o.path@)
}

fn finalized_at(indexed: &Vec<MediaIndexEntry>, path: &str) -> (r: bool)
    ensures
        r == exists|i: int| 0 <= i < indexed@.len() && (#[trigger] indexed@[i]).state == AssetState::Finalized
            && indexed@[i].resource_path@ == path@,
{
    let mut i: usize = 0;
    while i < indexed.len()
        invariant
            i <= indexed@.len(),
            forall|k: int| 0 <= k < i ==> !((#[trigger] indexed@[k]).state == AssetState::Finalized && indexed@[k].resource_path@ == path@),
        decreases indexed.len() - i,
    {
        if indexed[i].state == AssetState::Finalized && str_eq(indexed[i].resource_path.as_str(), path) {
            return true;
        }
        i = i + 1;
    }
    false
}

fn indexed_id(indexed: &Vec<MediaIndexEntry>, id: &str) -> (r: bool)
    ensures
        r == has_entry_id(indexed@, id@),
{
    let mut i: usize = 0;
    while i < indexed.len()
        invariant
            i <= indexed@.len(),
            forall|k: int| 0 <= k < i ==> (#[trigger] indexed@[k]).id@ != id@,
        decreases indexed.len() - i,
    {
        if str_eq(indexed[i].id.as_str(), id) {
            return true;
        }
        i = i + 1;
    }
    false
}

/// The captured files, in the order given, that the index does not account for.
pub fn orphaned_resources(indexed: &Vec<MediaIndexEntry>, files: &Vec<CaptureFile>) -> (r: Vec<OrphanedResource>)
    ensures
        r@.map_values(|o: OrphanedResource| orphan_view(o)) == orphans_spec(indexed@, files@),
{
    let mut out: Vec<OrphanedResource> = Vec::new();
    let mut k: usize = 0;
    while k < files.len()
        invariant
            k <= files@.len(),
            out@.map_values(|o: OrphanedResource| orphan_view(o)) == orphans_spec(indexed@, files@.subrange(0, k as int)),
        decreases files.len() - k,
    {
        let f = &files[k];
        let ghost prefix = files@.subrange(0, k + 1);
        assert(prefix.drop_last() =~= files@.subrange(0, k as int));
        assert(prefix.last() == files@[k as int]);
        match media_identity(f.file_name.as_str()) {
            None => {},
            Some((id, kind)) => {
                if !finalized_at(indexed, f.path.as_str()) && !indexed_id(indexed, id.as_str()) {
                    let ghost before = out@.map_values(|o: OrphanedResource| orphan_view(o));
                    let o = OrphanedResource { id, media_type: kind, path: f.path.clone() };
                    out.push(o);
                    assert(out@.map_values(|o: OrphanedResource| orphan_view(o)) =~= before.push(orphan_view(o)));
                }
            },
        }
        k = k + 1;
    }
    assert(files@.subrange(0, files@.len() as int) =~= files@);
    out
}

/// The entry a recovery step may act on, or why none may.
pub open spec fn recoverable_error(id: Seq<char>, entries: Seq<MediaIndexEntry>, finalized_message: Seq<char>) -> Option<Seq<char>> {
    if !safe_record_id(id) {
        Some("invalid media record ID"@)
    } else if !has_entry_id(entries, id) {
        Some("media record was not found: "@ + id)
    } else if entries[first_entry_with(entries, id, 0)].state == AssetState::Finalized {
        Some(finalized_message)
    } else {
        None
    }
}

/// The first entry, at or after `i`, with the identifier.
pub open spec fn first_entry_with(entries: Seq<MediaIndexEntry>, id: Seq<char>, i: int) -> int
    decreases entries.len() - i,
{
    if i < 0 || i >= entries.len() {
        -1
    } else if entries[i].id@ == id {
        i
    } else {
        first_entry_with(entries, id, i + 1)
    }
}

proof fn lemma_first_entry_with(entries: Seq<MediaIndexEntry>, id: Seq<char>, i: int)
    requires
        0 <= i,
    ensures
        first_entry_with(entries, id, i) == -1 || (i <= first_entry_with(entries, id, i) < entries.len()
            && entries[first_entry_with(entries, id, i)].id@ == id),
        (exists|k: int| i <= k < entries.len() && (#[trigger] entries[k]).id@ == id) ==> first_entry_with(entries, id, i) != -1,
    decreases entries.len() - i,
{
    if i < entries.len() {
        lemma_first_entry_with(entries, id, i + 1);
        if exists|k: int| i <= k < entries.len() && (#[trigger] entries[k]).id@ == id {
            let k = choose|k: int| i <= k < entries.len() && (#[trigger] entries[k]).id@ == id;
            if k > i {
                assert(i + 1 <= k);
            }
        }
    }
}

fn find_entry(entries: &Vec<MediaIndexEntry>, id: &str) -> (r: Option<usize>)
    ensures
        r matches Some(i) ==> i < entries@.len() && first_entry_with(entries@, id@, 0) == i,
        r is None ==> !has_entry_id(entries@, id@),
{
    let mut i: usize = 0;
    while i < entries.len()
        invariant
            i <= entries@.len(),
            first_entry_with(entries@, id@, 0) == first_entry_with(entries@, id@, i as int),
            forall|k: int| 0 <= k < i ==> (#[trigger] entries@[k]).id@ != id@,
        decreases entries.len() - i,
    {
        if str_eq(entries[i].id.as_str(), id) {
            return Some(i);
        }
        i = i + 1;
    }
    None
}

/// The entry with identifier `id`, taken out of the listing, if it is not finalized.
pub fn recoverable_entry(id: &str, entries: Vec<MediaIndexEntry>, finalized_message: &str) -> (r: Result<
    MediaIndexEntry,
    CameraError,
>)
    ensures
        match recoverable_error(id@, entries@, finalized_message@) {
            Some(m) => r matches Err(e) && e.0@ == m,
            None => r == Ok::<MediaIndexEntry, CameraError>(entries@[first_entry_with(entries@, id@, 0)]),
        },
{
    proof {
        reveal_strlit("invalid media record ID");
        reveal_strlit("media record was not found: ");
        lemma_first_entry_with(entries@, id@, 0);
    }
    if !is_safe_record_id(id) {
        return Err(camera_error("invalid media record ID"));
    }
    let i = match find_entry(&entries, id) {
        Some(i) => i,
        None => {
            let mut message = owned("media record was not found: ");
            push_str(&mut message, id);
            return Err(CameraError(message));
        },
    };
    assert(has_entry_id(entries@, id@));
    if entries[i].state == AssetState::Finalized {
        return Err(camera_error(finalized_message));
    }
    let mut entries = entries;
    Ok(entries.remove(i))
}

/// The diagnostic a reinspection records.
pub open spec fn reinspection_message(probe: Result<MediaResource, CameraError>) -> Seq<char> {
    match probe {
        Ok(r) => "reinspection passed structural media probe ("@ + r.container@ + "; "@ + decimal(r.pixel_width as nat)
            + "x"@ + decimal(r.pixel_height as nat) + "; "@ + decimal(r.byte_length as nat)
            + " bytes), but the original capture intent is unavailable; recapture is recommended"@,
        Err(e) => "reinspection failed structural media probe: "@ + e.0@,
    }
}

pub fn reinspection_diagnostic(probe: &Result<MediaResource, CameraError>) -> (r: String)
    ensures
        r@ == reinspection_message(*probe),
{
    match probe {
        Ok(resource) => {
            let mut s = owned("reinspection passed structural media probe (");
            push_str(&mut s, resource.container.as_str());
            push_str(&mut s, "; ");
            push_decimal(&mut s, resource.pixel_width as u64);
            push_str(&mut s, "x");
            push_decimal(&mut s, resource.pixel_height as u64);
            push_str(&mut s, "; ");
            push_decimal(&mut s, resource.byte_length);
            push_str(&mut s, " bytes), but the original capture intent is unavailable; recapture is recommended");
            s
        },
        Err(e) => {
            let mut s = owned("reinspection failed structural media probe: ");
            push_str(&mut s, e.0.as_str());
            s
        },
    }
}

impl MediaIndex {
    /// The recoverable entry that cleanup may remove.
    pub fn cleanup_recoverable(&self, id: &str, entries: Vec<MediaIndexEntry>) -> (r: Result<MediaIndexEntry, CameraError>)
        ensures
            match recoverable_error(id@, entries@, "finalized media cannot be removed by recoverable cleanup"@) {
                Some(m) => r matches Err(e) && e.0@ == m,
                None => r == Ok::<MediaIndexEntry, CameraError>(entries@[first_entry_with(entries@, id@, 0)]),
            },
    {
        recoverable_entry(id, entries, "finalized media cannot be removed by recoverable cleanup")
    }

    /// The recoverable entry that reinspection examines.
    pub fn reinspection_target(&self, id: &str, entries: Vec<MediaIndexEntry>) -> (r: Result<MediaIndexEntry, CameraError>)
        ensures
            match recoverable_error(id@, entries@, "finalized media does not require recovery reinspection"@) {
                Some(m) => r matches Err(e) && e.0@ == m,
                None => r == Ok::<MediaIndexEntry, CameraError>(entries@[first_entry_with(entries@, id@, 0)]),
            },
    {
        recoverable_entry(id, entries, "finalized media does not require recovery reinspection")
    }

    /// The failed record that replaces a recoverable entry after its resource
    /// was probed again; the entry is never promoted.
    pub fn reinspect_recoverable(
        &self,
        entry: MediaIndexEntry,
        probe: Result<MediaResource, CameraError>,
        updated_at_utc: String,
    ) -> (r: Result<MediaIndexEntry, CameraError>)
        ensures
            blank(entry.id@) ==> (r matches Err(e) && e.0@ == "failed media record requires an ID and error"@),
            !blank(entry.id@) && !safe_record_id(entry.id@) ==> (r matches Err(e) && e.0@
                == "invalid media record envelope"@),
            !blank(entry.id@) && safe_record_id(entry.id@) ==> (r matches Ok(x) && x.schema_version == MEDIA_RECORD_SCHEMA_VERSION && x.state
                == AssetState::Failed && x.id == entry.id && x.media_type == entry.media_type && x.resource_path
                == entry.resource_path && x.asset is None && x.error is Some && x.error->0@ == reinspection_message(probe)
                && x.updated_at_utc == updated_at_utc),
    {
        let diagnostic = reinspection_diagnostic(&probe);
        proof {
            reveal_strlit("reinspection passed structural media probe (");
            reveal_strlit("reinspection failed structural media probe: ");
            if probe is Err {
                assert(!blank(diagnostic@)) by {
                    assert(diagnostic@[0] == 'r');
                }
            } else {
                assert(!blank(diagnostic@)) by {
                    assert(diagnostic@[0] == 'r');
                }
            }
        }
        proof {
            reveal_strlit("failed media record requires an ID and error");
            reveal_strlit("invalid media record envelope");
        }
        self.record_failed(entry.id, entry.media_type, entry.resource_path, diagnostic, updated_at_utc)
    }
}

} // verus!
