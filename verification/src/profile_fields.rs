//! Field checks shared by every imaging profile: non-empty text, semantic
//! versions and RFC 3339 timestamps, each failure naming the JSON path of
//! the field.
use vstd::prelude::*;
use vstd::string::*;
use vstd::utf8::encode_utf8;
use crate::profiles::{MeasurementQuality, ProfileKind, PROFILE_SCHEMA_VERSION};
use crate::text::{blank, chars_of, decimal, is_blank, owned, push_decimal, push_str, str_eq};
use crate::transfer::{ascii_alphanumeric, ascii_digit};

verus! {

#[derive(Debug, Clone, PartialEq, Eq)]
pub struct ProfileError {
    pub path: String,
    pub reason: String,
}

/// A failure at `path` for `reason`.
pub fn profile_error(path: &str, reason: &str) -> (r: ProfileError)
    ensures
        r.path@ == path@,
        r.reason@ == reason@,
{
    ProfileError { path: owned(path), reason: owned(reason) }
}

/// The field at `path` must hold more than white space.
pub fn validate_non_empty(path: &str, value: &str) -> (r: Result<(), ProfileError>)
    ensures
        !blank(value@) ==> r is Ok,
        blank(value@) ==> (r matches Err(e) && e.path@ == path@ && e.reason@ == "must not be empty"@),
{
    if is_blank(value) {
        return Err(profile_error(path, "must not be empty"));
    }
    Ok(())
}

// ---------------------------------------------------------------------------
// RFC 3339 timestamps.

/// Every byte in `[start, end)` is an ASCII digit.
pub open spec fn digits_in(b: Seq<u8>, start: int, end: int) -> bool {
    forall|i: int| start <= i < end ==> ascii_digit(#[trigger] b[i])
}

/// The decimal value of the digits in `[start, end)`.
pub open spec fn decimal_value(b: Seq<u8>, start: int, end: int) -> int
    decreases end - start,
{
    if end <= start {
        0
    } else {
        decimal_value(b, start, end - 1) * 10 + (b[end - 1] - 0x30)
    }
}

/// The number written in `[start, end)`, when that range lies in `b` and
/// holds one or more digits only.
pub open spec fn number_at(b: Seq<u8>, start: int, end: int) -> Option<int> {
    if 0 <= start < end <= b.len() && digits_in(b, start, end) {
        Some(decimal_value(b, start, end))
    } else {
        None
    }
}

pub open spec fn byte_at_is(b: Seq<u8>, i: int, c: u8) -> bool {
    0 <= i < b.len() && b[i] == c
}

/// The index of the first non-digit at or after `i`, or the length.
pub open spec fn digits_end(b: Seq<u8>, i: int) -> int
    decreases b.len() - i,
{
    if i < 0 || i >= b.len() || !ascii_digit(b[i]) {
        if i < 0 { i } else if i >= b.len() { b.len() as int } else { i }
    } else {
        digits_end(b, i + 1)
    }
}

pub open spec fn leap_year(year: int) -> bool {
    year % 4 == 0 && (year % 100 != 0 || year % 400 == 0)
}

pub open spec fn days_in_month(year: int, month: int) -> int {
    if month == 1 || month == 3 || month == 5 || month == 7 || month == 8 || month == 10 || month == 12 {
        31
    } else if month == 4 || month == 6 || month == 9 || month == 11 {
        30
    } else if month == 2 && leap_year(year) {
        29
    } else if month == 2 {
        28
    } else {
        0
    }
}

/// Where the time-zone designator starts: after the seconds, or after a
/// fraction of one or more digits; `None` when a `.` has no digits.
pub open spec fn zone_index(b: Seq<u8>) -> Option<int> {
    if byte_at_is(b, 19, 0x2e) {
        if digits_end(b, 20) == 20 {
            None
        } else {
            Some(digits_end(b, 20))
        }
    } else {
        Some(19)
    }
}

/// `Z`/`z` ending the text, or a `+hh:mm`/`-hh:mm` offset ending it.
pub open spec fn zone_valid(b: Seq<u8>, z: int) -> bool {
    let utc = byte_at_is(b, z, 0x5a) || byte_at_is(b, z, 0x7a);
    let offset = (byte_at_is(b, z, 0x2b) || byte_at_is(b, z, 0x2d)) && byte_at_is(b, z + 3, 0x3a) && (number_at(
        b,
        z + 1,
        z + 3,
    ) matches Some(h) && h <= 23) && (number_at(b, z + 4, z + 6) matches Some(m) && m <= 59) && z + 6 == b.len();
    (utc && z + 1 == b.len()) || offset
}

/// `value` is an RFC 3339 date-time: `YYYY-MM-DDThh:mm:ss`, an optional
/// fraction, and `Z` or a numeric offset, with a real calendar date.
pub open spec fn rfc3339_valid(value: Seq<char>) -> bool {
    let b = encode_utf8(value);
    let shape = b.len() >= 20 && byte_at_is(b, 4, 0x2d) && byte_at_is(b, 7, 0x2d) && (byte_at_is(b, 10, 0x54)
        || byte_at_is(b, 10, 0x74)) && byte_at_is(b, 13, 0x3a) && byte_at_is(b, 16, 0x3a);
    &&& number_at(b, 0, 4) is Some
    &&& number_at(b, 5, 7) is Some
    &&& number_at(b, 8, 10) is Some
    &&& number_at(b, 11, 13) is Some
    &&& number_at(b, 14, 16) is Some
    &&& number_at(b, 17, 19) is Some
    &&& zone_index(b) is Some
    &&& shape
    &&& number_at(b, 5, 7)->0 > 0
    &&& number_at(b, 8, 10)->0 > 0
    &&& number_at(b, 8, 10)->0 <= days_in_month(number_at(b, 0, 4)->0, number_at(b, 5, 7)->0)
    &&& number_at(b, 11, 13)->0 <= 23
    &&& number_at(b, 14, 16)->0 <= 59
    &&& number_at(b, 17, 19)->0 <= 60
    &&& zone_valid(b, zone_index(b)->0)
}

pub open spec fn ten_to(n: nat) -> int
    decreases n,
{
    if n == 0 {
        1
    } else {
        10 * ten_to((n - 1) as nat)
    }
}

/// The number written in `[start, end)` of `b`, at most four digits.
fn number_in(b: &[u8], start: usize, end: usize) -> (r: Option<u32>)
    requires
        end <= start + 4,
    ensures
        match number_at(b@, start as int, end as int) {
            Some(n) => r == Some(n as u32) && 0 <= n < 10000,
            None => r is None,
        },
{
    if !(start < end && end <= b.len()) {
        return None;
    }
    let mut value: u32 = 0;
    let mut i: usize = start;
    while i < end
        invariant
            start <= i <= end <= b@.len(),
            end <= start + 4,
            digits_in(b@, start as int, i as int),
            value == decimal_value(b@, start as int, i as int),
            value < ten_to((i - start) as nat),
        decreases end - i,
    {
        let c = b[i];
        if !(0x30 <= c && c <= 0x39) {
            return None;
        }
        proof {
            let k = (i - start) as nat;
            let p = ten_to(k);
            assert(ten_to(k + 1) == 10 * p);
            assert(value * 10 + (c - 0x30) < p * 10) by (nonlinear_arith)
                requires
                    value < p,
                    0 <= c - 0x30 < 10,
            ;
            assert(p * 10 <= 10000) by {
                reveal_with_fuel(ten_to, 5);
                assert(ten_to(0) == 1 && ten_to(1) == 10 && ten_to(2) == 100 && ten_to(3) == 1000 && ten_to(4) == 10000);
                assert(k <= 3);
            }
        }
        value = value * 10 + (c - 0x30) as u32;
        i = i + 1;
    }
    proof {
        reveal_with_fuel(ten_to, 5);
        assert(ten_to(0) == 1 && ten_to(1) == 10 && ten_to(2) == 100 && ten_to(3) == 1000 && ten_to(4) == 10000);
        assert(end - start <= 4);
    }
    Some(value)
}

fn byte_is(b: &[u8], i: usize, c: u8) -> (r: bool)
    ensures
        r == byte_at_is(b@, i as int, c),
{
    i < b.len() && b[i] == c
}

fn zone_start(b: &[u8]) -> (r: Option<usize>)
    ensures
        r matches Some(z) ==> zone_index(b@) == Some(z as int),
        r is None ==> zone_index(b@) is None,
        r matches Some(z) ==> z <= b@.len() || z == 19,
{
    if byte_is(b, 19, 0x2e) {
        let mut i: usize = 20;
        assert(digits_end(b@, 20) == digits_end(b@, i as int));
        while i < b.len() && 0x30 <= b[i] && b[i] <= 0x39
            invariant
                20 <= i <= b@.len(),
                digits_end(b@, 20) == digits_end(b@, i as int),
            decreases b.len() - i,
        {
            i = i + 1;
        }
        if i == 20 {
            return None;
        }
        Some(i)
    } else {
        Some(19)
    }
}

/// The field at `path` must be an RFC 3339 timestamp with a real date.
pub fn validate_rfc3339(path: &str, value: &str) -> (r: Result<(), ProfileError>)
    ensures
        rfc3339_valid(value@) ==> r is Ok,
        !rfc3339_valid(value@) ==> (r matches Err(e) && e.path@ == path@ && e.reason@
            == "must be an RFC 3339 timestamp"@),
{
    let b = value.as_bytes();
    let _n: usize = b.len();
    let shape = b.len() >= 20 && byte_is(b, 4, 0x2d) && byte_is(b, 7, 0x2d) && (byte_is(b, 10, 0x54) || byte_is(
        b,
        10,
        0x74,
    )) && byte_is(b, 13, 0x3a) && byte_is(b, 16, 0x3a);
    let year = number_in(b, 0, 4);
    let month = number_in(b, 5, 7);
    let day = number_in(b, 8, 10);
    let hour = number_in(b, 11, 13);
    let minute = number_in(b, 14, 16);
    let second = number_in(b, 17, 19);
    let (year, month, day, hour, minute, second) = match (year, month, day, hour, minute, second) {
        (Some(y), Some(mo), Some(d), Some(h), Some(mi), Some(s)) => (y, mo, d, h, mi, s),
        _ => return Err(profile_error(path, "must be an RFC 3339 timestamp")),
    };
    let leap = year % 4 == 0 && (year % 100 != 0 || year % 400 == 0);
    let days: u32 = if month == 1 || month == 3 || month == 5 || month == 7 || month == 8 || month == 10 || month
        == 12 {
        31
    } else if month == 4 || month == 6 || month == 9 || month == 11 {
        30
    } else if month == 2 && leap {
        29
    } else if month == 2 {
        28
    } else {
        0
    };
    let z = match zone_start(b) {
        Some(z) => z,
        None => return Err(profile_error(path, "must be an RFC 3339 timestamp")),
    };
    let utc = byte_is(b, z, 0x5a) || byte_is(b, z, 0x7a);
    let sign = byte_is(b, z, 0x2b) || byte_is(b, z, 0x2d);
    let offset = if sign && z <= usize::MAX - 6 {
        let offset_hour = number_in(b, z + 1, z + 3);
        let offset_minute = number_in(b, z + 4, z + 6);
        let hour_ok = match offset_hour {
            Some(h) => h <= 23,
            None => false,
        };
        let minute_ok = match offset_minute {
            Some(m) => m <= 59,
            None => false,
        };
        byte_is(b, z + 3, 0x3a) && hour_ok && minute_ok && z + 6 == b.len()
    } else {
        false
    };
    let valid = shape && month > 0 && day > 0 && day <= days && hour <= 23 && minute <= 59 && second <= 60 && ((utc
        && z + 1 == b.len()) || offset);
    if !valid {
        return Err(profile_error(path, "must be an RFC 3339 timestamp"));
    }
    Ok(())
}

// ---------------------------------------------------------------------------
// Semantic versions.

/// The index of the first `c` in `[i, end)` of `s`, or `end`.
pub open spec fn find_char(s: Seq<char>, c: char, i: int, end: int) -> int
    decreases end - i,
{
    if i >= end {
        end
    } else if s[i] == c {
        i
    } else {
        find_char(s, c, i + 1, end)
    }
}

pub open spec fn decimal_char(c: char) -> bool {
    '0' <= c && c <= '9'
}

pub open spec fn identifier_char(c: char) -> bool {
    ('0' <= c && c <= '9') || ('A' <= c && c <= 'Z') || ('a' <= c && c <= 'z') || c == '-'
}

pub open spec fn decimal_chars(s: Seq<char>, a: int, b: int) -> bool {
    forall|i: int| a <= i < b ==> decimal_char(#[trigger] s[i])
}

/// A numeric version part: one or more digits, without a leading zero
/// unless the part is `0`.
pub open spec fn version_number(s: Seq<char>, a: int, b: int) -> bool {
    a < b && decimal_chars(s, a, b) && (b - a == 1 || s[a] != '0')
}

/// A pre-release or build identifier: one or more of `[0-9A-Za-z-]`; where
/// numeric identifiers are restricted, an all-digit one has no leading zero.
pub open spec fn identifier_ok(s: Seq<char>, a: int, b: int, reject_leading_zero: bool) -> bool {
    &&& a < b
    &&& forall|i: int| a <= i < b ==> identifier_char(#[trigger] s[i])
    &&& reject_leading_zero ==> (!decimal_chars(s, a, b) || b - a == 1 || s[a] != '0')
}

/// The dot-separated identifiers of `[start, end)`, scanned from `i` with the
/// current identifier starting at `start`, are all acceptable.
pub open spec fn identifiers_from(s: Seq<char>, start: int, i: int, end: int, reject_leading_zero: bool) -> bool
    decreases end - i,
{
    if i >= end {
        identifier_ok(s, start, end, reject_leading_zero)
    } else if s[i] == '.' {
        identifier_ok(s, start, i, reject_leading_zero) && identifiers_from(s, i + 1, i + 1, end, reject_leading_zero)
    } else {
        identifiers_from(s, start, i + 1, end, reject_leading_zero)
    }
}

/// `MAJOR.MINOR.PATCH`, optionally `-pre.release` and `+build.metadata`.
pub open spec fn semver_valid(s: Seq<char>) -> bool {
    let n = s.len() as int;
    let plus = find_char(s, '+', 0, n);
    let dash = find_char(s, '-', 0, plus);
    let d1 = find_char(s, '.', 0, dash);
    let d2 = find_char(s, '.', d1 + 1, dash);
    let d3 = find_char(s, '.', d2 + 1, dash);
    &&& !(plus < n && find_char(s, '+', plus + 1, n) < n)
    &&& d1 < dash && d2 < dash && d3 == dash
    &&& version_number(s, 0, d1) && version_number(s, d1 + 1, d2) && version_number(s, d2 + 1, dash)
    &&& dash < plus ==> identifiers_from(s, dash + 1, dash + 1, plus, true)
    &&& plus < n ==> identifiers_from(s, plus + 1, plus + 1, n, false)
}

fn find_in(v: &Vec<char>, c: char, i: usize, end: usize) -> (r: usize)
    requires
        i <= end <= v@.len(),
    ensures
        r == find_char(v@, c, i as int, end as int),
        i <= r <= end,
{
    let mut k = i;
    while k < end && v[k] != c
        invariant
            i <= k <= end <= v@.len(),
            find_char(v@, c, i as int, end as int) == find_char(v@, c, k as int, end as int),
        decreases end - k,
    {
        k = k + 1;
    }
    k
}

fn is_decimal_char(c: char) -> (r: bool)
    ensures
        r == decimal_char(c),
{
    '0' <= c && c <= '9'
}

fn decimal_run(v: &Vec<char>, a: usize, b: usize) -> (r: bool)
    requires
        a <= b <= v@.len(),
    ensures
        r == decimal_chars(v@, a as int, b as int),
{
    let mut i = a;
    while i < b
        invariant
            a <= i <= b <= v@.len(),
            decimal_chars(v@, a as int, i as int),
        decreases b - i,
    {
        if !is_decimal_char(v[i]) {
            return false;
        }
        i = i + 1;
    }
    true
}

fn is_version_number(v: &Vec<char>, a: usize, b: usize) -> (r: bool)
    requires
        a <= b <= v@.len(),
    ensures
        r == version_number(v@, a as int, b as int),
{
    a < b && decimal_run(v, a, b) && (b - a == 1 || v[a] != '0')
}

fn is_identifier(v: &Vec<char>, a: usize, b: usize, reject_leading_zero: bool) -> (r: bool)
    requires
        a <= b <= v@.len(),
    ensures
        r == identifier_ok(v@, a as int, b as int, reject_leading_zero),
{
    if a >= b {
        return false;
    }
    let mut i = a;
    while i < b
        invariant
            a <= i <= b <= v@.len(),
            forall|k: int| a <= k < i ==> identifier_char(#[trigger] v@[k]),
        decreases b - i,
    {
        let c = v[i];
        if !(('0' <= c && c <= '9') || ('A' <= c && c <= 'Z') || ('a' <= c && c <= 'z') || c == '-') {
            return false;
        }
        i = i + 1;
    }
    !reject_leading_zero || !decimal_run(v, a, b) || b - a == 1 || v[a] != '0'
}

fn identifiers_valid(v: &Vec<char>, a: usize, b: usize, reject_leading_zero: bool) -> (r: bool)
    requires
        a <= b <= v@.len(),
    ensures
        r == identifiers_from(v@, a as int, a as int, b as int, reject_leading_zero),
{
    let mut start = a;
    let mut i = a;
    while i < b
        invariant
            a <= start <= i <= b <= v@.len(),
            identifiers_from(v@, a as int, a as int, b as int, reject_leading_zero) == identifiers_from(
                v@,
                start as int,
                i as int,
                b as int,
                reject_leading_zero,
            ),
        decreases b - i,
    {
        if v[i] == '.' {
            if !is_identifier(v, start, i, reject_leading_zero) {
                return false;
            }
            start = i + 1;
        }
        i = i + 1;
    }
    is_identifier(v, start, b, reject_leading_zero)
}

/// The field at `path` must be a semantic version.
pub fn validate_semver(path: &str, value: &str) -> (r: Result<(), ProfileError>)
    ensures
        semver_valid(value@) ==> r is Ok,
        !semver_valid(value@) ==> (r matches Err(e) && e.path@ == path@ && e.reason@ == "must be a semantic version"@),
{
    let v = chars_of(value);
    let n = v.len();
    let plus = find_in(&v, '+', 0, n);
    let extra = plus < n && find_in(&v, '+', plus + 1, n) < n;
    let dash = find_in(&v, '-', 0, plus);
    let d1 = find_in(&v, '.', 0, dash);
    let core = if d1 < dash {
        let d2 = find_in(&v, '.', d1 + 1, dash);
        if d2 < dash {
            let d3 = find_in(&v, '.', d2 + 1, dash);
            d3 == dash && is_version_number(&v, 0, d1) && is_version_number(&v, d1 + 1, d2) && is_version_number(
                &v,
                d2 + 1,
                dash,
            )
        } else {
            false
        }
    } else {
        false
    };
    let pre = dash >= plus || identifiers_valid(&v, dash + 1, plus, true);
    let build = plus >= n || identifiers_valid(&v, plus + 1, n, false);
    if extra || !core || !pre || !build {
        return Err(profile_error(path, "must be a semantic version"));
    }
    Ok(())
}

// ---------------------------------------------------------------------------
// The profile envelope's typed header.

#[derive(Debug, Clone, PartialEq, Eq)]
pub struct ProfileProvenance {
    pub quality: MeasurementQuality,
    pub source_type: String,
    pub source_reference: String,
    pub measurement_method: Option<String>,
    pub measured_by: Option<String>,
}

#[derive(Debug, Clone, PartialEq, Eq)]
pub struct ProfileReference {
    pub profile_id: String,
    pub expected_kind: Option<ProfileKind>,
}

/// The typed fields every profile envelope carries. Its kind-specific data
/// and extension fields are JSON values the caller keeps; validation reads
/// from the data only whether it is a JSON object.
#[derive(Debug, Clone, PartialEq, Eq)]
pub struct ProfileHeader {
    pub schema_version: u32,
    pub profile_version: String,
    pub id: String,
    pub kind: ProfileKind,
    pub manufacturer: String,
    pub model: String,
    pub license: String,
    pub created_at: String,
    pub provenance: ProfileProvenance,
    pub references: Vec<ProfileReference>,
}

/// The path of the `index`-th reference's id.
pub open spec fn reference_path(index: nat) -> Seq<char> {
    "$.references["@ + decimal(index) + "].profile_id"@
}

/// The first reference at or after `i` that is blank or names the profile
/// itself, or the number of references.
pub open spec fn first_bad_reference(refs: Seq<ProfileReference>, id: Seq<char>, i: int) -> int
    decreases refs.len() - i,
{
    if i >= refs.len() {
        refs.len() as int
    } else if blank(refs[i].profile_id@) || refs[i].profile_id@ == id {
        i
    } else {
        first_bad_reference(refs, id, i + 1)
    }
}

/// Where a header fails and why, in the order the checks are made.
pub open spec fn header_fault(h: ProfileHeader, data_is_object: bool) -> Option<(Seq<char>, Seq<char>)> {
    let bad = first_bad_reference(h.references@, h.id@, 0);
    if h.schema_version != PROFILE_SCHEMA_VERSION {
        Some(
            (
                "$.schema_version"@,
                "unsupported profile schema version "@ + decimal(h.schema_version as nat) + "; expected 1"@,
            ),
        )
    } else if blank(h.id@) {
        Some(("$.id"@, "must not be empty"@))
    } else if !semver_valid(h.profile_version@) {
        Some(("$.profile_version"@, "must be a semantic version"@))
    } else if blank(h.manufacturer@) {
        Some(("$.manufacturer"@, "must not be empty"@))
    } else if blank(h.model@) {
        Some(("$.model"@, "must not be empty"@))
    } else if blank(h.license@) {
        Some(("$.license"@, "must not be empty"@))
    } else if !rfc3339_valid(h.created_at@) {
        Some(("$.created_at"@, "must be an RFC 3339 timestamp"@))
    } else if blank(h.provenance.source_type@) {
        Some(("$.provenance.source_type"@, "must not be empty"@))
    } else if blank(h.provenance.source_reference@) {
        Some(("$.provenance.source_reference"@, "must not be empty"@))
    } else if !data_is_object {
        Some(("$.data"@, "must be a JSON object"@))
    } else if bad < h.references@.len() {
        Some(
            (
                reference_path(bad as nat),
                if blank(h.references@[bad].profile_id@) {
                    "must not be empty"@
                } else {
                    "a profile cannot reference itself"@
                },
            ),
        )
    } else {
        None
    }
}

fn reference_path_text(index: usize) -> (r: String)
    ensures
        r@ == reference_path(index as nat),
{
    let mut s = owned("$.references[");
    push_decimal(&mut s, index as u64);
    push_str(&mut s, "].profile_id");
    s
}

impl ProfileHeader {
    /// Checks the envelope's common fields; `data_is_object` tells whether
    /// its data payload is a JSON object. The kind-specific payload is
    /// checked by its own typed validation.
    #[verifier::loop_isolation(false)]
    pub fn validate(&self, data_is_object: bool) -> (r: Result<(), ProfileError>)
        ensures
            match header_fault(*self, data_is_object) {
                None => r is Ok,
                Some((path, reason)) => r matches Err(e) && e.path@ == path && e.reason@ == reason,
            },
    {
        if self.schema_version != PROFILE_SCHEMA_VERSION {
            let mut reason = owned("unsupported profile schema version ");
            push_decimal(&mut reason, self.schema_version as u64);
            push_str(&mut reason, "; expected 1");
            return Err(ProfileError { path: owned("$.schema_version"), reason });
        }
        validate_non_empty("$.id", self.id.as_str())?;
        validate_semver("$.profile_version", self.profile_version.as_str())?;
        validate_non_empty("$.manufacturer", self.manufacturer.as_str())?;
        validate_non_empty("$.model", self.model.as_str())?;
        validate_non_empty("$.license", self.license.as_str())?;
        validate_rfc3339("$.created_at", self.created_at.as_str())?;
        validate_non_empty("$.provenance.source_type", self.provenance.source_type.as_str())?;
        validate_non_empty("$.provenance.source_reference", self.provenance.source_reference.as_str())?;
        if !data_is_object {
            return Err(profile_error("$.data", "must be a JSON object"));
        }
        let mut i: usize = 0;
        while i < self.references.len()
            invariant
                i <= self.references@.len(),
                first_bad_reference(self.references@, self.id@, 0) == first_bad_reference(
                    self.references@,
                    self.id@,
                    i as int,
                ),
            decreases self.references.len() - i,
        {
            let reference = &self.references[i];
            if is_blank(reference.profile_id.as_str()) {
                return Err(ProfileError { path: reference_path_text(i), reason: owned("must not be empty") });
            }
            if str_eq(reference.profile_id.as_str(), self.id.as_str()) {
                return Err(
                    ProfileError {
                        path: reference_path_text(i),
                        reason: owned("a profile cannot reference itself"),
                    },
                );
            }
            i = i + 1;
        }
        Ok(())
    }
}

} // verus!
