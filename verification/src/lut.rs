//! Naming rules of the LUT catalog: which uploads count as `.cube` files,
//! the file stem an import is stored under, and which identifiers name an
//! imported LUT inside the managed directory.
use vstd::prelude::*;
use crate::discovery::{all_digits, digit_char, digits_value, lemma_digits_value_grows};
use crate::media_index::{lemma_text_lt_irreflexive, lemma_text_lt_total, lemma_text_lt_transitive, text_before, text_lt};
use crate::text::{chars_of, decimal, owned, push_decimal, push_str, string_of, trim, trimmed};

verus! {

/// Largest `.cube` text accepted for import, in bytes.
pub const MAX_LUT_BYTES: usize = 4194304;

/// Longest stored file stem, in characters.
pub const MAX_STEM_CHARS: usize = 48;

/// `char::is_ascii_alphanumeric`, `-` or `_`: the characters a stored stem
/// and an imported identifier may hold.
pub open spec fn stem_char(c: char) -> bool {
    ('0' <= c && c <= '9') || ('a' <= c && c <= 'z') || ('A' <= c && c <= 'Z') || c == '-' || c == '_'
}

pub fn is_stem_char(c: char) -> (b: bool)
    ensures
        b == stem_char(c),
{
    ('0' <= c && c <= '9') || ('a' <= c && c <= 'z') || ('A' <= c && c <= 'Z') || c == '-' || c == '_'
}

/// `char::to_ascii_lowercase`.
pub open spec fn ascii_lower(c: char) -> char {
    if 'A' <= c && c <= 'Z' {
        ((c as u32) + 32) as char
    } else {
        c
    }
}

/// The extension that an import must end with, in any ASCII case.
pub open spec fn cube_suffix() -> Seq<char> {
    seq!['.', 'c', 'u', 'b', 'e']
}

/// The prefix of an imported LUT's identifier.
pub open spec fn imported_prefix() -> Seq<char> {
    seq!['i', 'm', 'p', 'o', 'r', 't', 'e', 'd', ':']
}

/// The name ends in `.cube`, ignoring ASCII case.
pub open spec fn cube_file_name(name: Seq<char>) -> bool {
    &&& name.len() >= 5
    &&& forall|k: int| 0 <= k < 5 ==> #[trigger] ascii_lower(name[name.len() - 5 + k]) == cube_suffix()[k]
}

/// Whether an uploaded file's name marks it as a `.cube` LUT.
pub fn is_cube_file_name(file_name: &str) -> (r: bool)
    ensures
        r == cube_file_name(file_name@),
{
    let cs = chars_of(file_name);
    let n = cs.len();
    if n < 5 {
        return false;
    }
    let suffix: Vec<char> = vec!['.', 'c', 'u', 'b', 'e'];
    assert(suffix@ =~= cube_suffix());
    let mut k: usize = 0;
    while k < 5
        invariant
            n == cs@.len(),
            n >= 5,
            cs@ == file_name@,
            suffix@ == cube_suffix(),
            k <= 5,
            forall|j: int| 0 <= j < k ==> #[trigger] ascii_lower(cs@[n - 5 + j]) == cube_suffix()[j],
        decreases 5 - k,
    {
        let c = cs[n - 5 + k];
        let lower = if 'A' <= c && c <= 'Z' {
            ((c as u32) + 32) as u8 as char
        } else {
            c
        };
        assert(lower == ascii_lower(c));
        if lower != suffix[k] {
            return false;
        }
        k = k + 1;
    }
    true
}

/// The prefix up to and including its last `.`; empty when there is none
/// (`str::trim_end_matches` of every character but `.`).
pub open spec fn through_last_dot(s: Seq<char>) -> Seq<char>
    decreases s.len(),
{
    if s.len() == 0 || s.last() == '.' {
        s
    } else {
        through_last_dot(s.drop_last())
    }
}

/// The sequence without its trailing `.` characters.
pub open spec fn without_trailing_dots(s: Seq<char>) -> Seq<char>
    decreases s.len(),
{
    if s.len() > 0 && s.last() == '.' {
        without_trailing_dots(s.drop_last())
    } else {
        s
    }
}

/// The stem characters of a sequence, in order.
pub open spec fn stem_chars(s: Seq<char>) -> Seq<char>
    decreases s.len(),
{
    if s.len() == 0 {
        s
    } else if stem_char(s.last()) {
        stem_chars(s.drop_last()).push(s.last())
    } else {
        stem_chars(s.drop_last())
    }
}

/// The stem an import named `name` is stored under: the name before its
/// extension, kept to stem characters and to its first 48 of them, or
/// `external` where nothing is left.
pub open spec fn import_stem(name: Seq<char>) -> Seq<char> {
    let kept = stem_chars(without_trailing_dots(through_last_dot(name)));
    let stem = if kept.len() > MAX_STEM_CHARS {
        kept.take(MAX_STEM_CHARS as int)
    } else {
        kept
    };
    if stem.len() == 0 {
        seq!['e', 'x', 't', 'e', 'r', 'n', 'a', 'l']
    } else {
        stem
    }
}

/// The file stem an import named `file_name` is stored under; it holds
/// only stem characters, so it cannot leave the managed directory.
pub fn safe_import_stem(file_name: &str) -> (r: String)
    ensures
        r@ == import_stem(file_name@),
        forall|k: int| 0 <= k < r@.len() ==> stem_char(#[trigger] r@[k]),
        0 < r@.len() <= MAX_STEM_CHARS,
{
    let cs = chars_of(file_name);
    let mut j: usize = cs.len();
    assert(cs@.subrange(0, cs@.len() as int) =~= cs@);
    while j > 0 && cs[j - 1] != '.'
        invariant
            cs@ == file_name@,
            j <= cs@.len(),
            through_last_dot(cs@) == through_last_dot(cs@.subrange(0, j as int)),
        decreases j,
    {
        assert(cs@.subrange(0, j as int).drop_last() =~= cs@.subrange(0, j - 1));
        j = j - 1;
    }
    assert(through_last_dot(cs@) == cs@.subrange(0, j as int));
    let mut k: usize = j;
    while k > 0 && cs[k - 1] == '.'
        invariant
            cs@ == file_name@,
            k <= j <= cs@.len(),
            without_trailing_dots(through_last_dot(cs@)) == without_trailing_dots(cs@.subrange(0, k as int)),
        decreases k,
    {
        assert(cs@.subrange(0, k as int).drop_last() =~= cs@.subrange(0, k - 1));
        k = k - 1;
    }
    let ghost base = cs@.subrange(0, k as int);
    assert(without_trailing_dots(base) == base);
    let mut kept: Vec<char> = Vec::new();
    let mut i: usize = 0;
    while i < k
        invariant
            cs@ == file_name@,
            k <= cs@.len(),
            base == cs@.subrange(0, k as int),
            i <= k,
            kept@ == stem_chars(base.subrange(0, i as int)),
            forall|t: int| 0 <= t < kept@.len() ==> stem_char(#[trigger] kept@[t]),
        decreases k - i,
    {
        assert(base.subrange(0, i + 1).drop_last() =~= base.subrange(0, i as int));
        assert(base.subrange(0, i + 1).last() == cs@[i as int]);
        if is_stem_char(cs[i]) {
            kept.push(cs[i]);
        }
        i = i + 1;
    }
    assert(base.subrange(0, k as int) =~= base);
    if kept.len() > MAX_STEM_CHARS {
        kept.truncate(MAX_STEM_CHARS);
        assert(kept@ =~= stem_chars(base).take(MAX_STEM_CHARS as int));
    }
    if kept.len() == 0 {
        let r = owned("external");
        proof {
            reveal_strlit("external");
        }
        assert(r@ =~= seq!['e', 'x', 't', 'e', 'r', 'n', 'a', 'l']);
        r
    } else {
        string_of(&kept)
    }
}

/// The identifier names an imported LUT.
pub open spec fn has_imported_prefix(id: Seq<char>) -> bool {
    id.len() >= 9 && id.take(9) == imported_prefix()
}

/// A stem that names a file inside the managed directory.
pub open spec fn valid_stem(stem: Seq<char>) -> bool {
    stem.len() > 0 && forall|k: int| 0 <= k < stem.len() ==> stem_char(#[trigger] stem[k])
}

/// The stored file stem that an imported LUT's identifier names; only
/// imported LUTs have files, and only stems of stem characters are looked up.
pub fn imported_lut_stem(id: &str) -> (r: Result<String, &'static str>)
    ensures
        !has_imported_prefix(id@) ==> r == Err::<String, &'static str>("only imported LUTs have file payloads"),
        has_imported_prefix(id@) && !valid_stem(id@.skip(9)) ==> r == Err::<String, &'static str>(
            "invalid imported LUT identifier",
        ),
        has_imported_prefix(id@) && valid_stem(id@.skip(9)) ==> (r is Ok && r->Ok_0@ == id@.skip(9)),
{
    let cs = chars_of(id);
    let prefix: Vec<char> = vec!['i', 'm', 'p', 'o', 'r', 't', 'e', 'd', ':'];
    assert(prefix@ =~= imported_prefix());
    if cs.len() < 9 {
        return Err("only imported LUTs have file payloads");
    }
    let mut k: usize = 0;
    while k < 9
        invariant
            cs@ == id@,
            cs@.len() >= 9,
            prefix@ == imported_prefix(),
            k <= 9,
            forall|j: int| 0 <= j < k ==> #[trigger] cs@[j] == imported_prefix()[j],
        decreases 9 - k,
    {
        if cs[k] != prefix[k] {
            assert(id@.take(9)[k as int] != imported_prefix()[k as int]);
            return Err("only imported LUTs have file payloads");
        }
        k = k + 1;
    }
    assert(id@.take(9) =~= imported_prefix());
    let mut stem: Vec<char> = Vec::new();
    let mut i: usize = 9;
    while i < cs.len()
        invariant
            cs@ == id@,
            cs@.len() >= 9,
            id@.take(9) == imported_prefix(),
            9 <= i <= cs@.len(),
            stem@ == id@.subrange(9, i as int),
            forall|t: int| 0 <= t < stem@.len() ==> stem_char(#[trigger] stem@[t]),
        decreases cs.len() - i,
    {
        if !is_stem_char(cs[i]) {
            assert(id@.skip(9)[i - 9] == cs@[i as int]);
            return Err("invalid imported LUT identifier");
        }
        stem.push(cs[i]);
        i = i + 1;
        assert(stem@ =~= id@.subrange(9, i as int));
    }
    assert(stem@ =~= id@.skip(9));
    if stem.len() == 0 {
        return Err("invalid imported LUT identifier");
    }
    Ok(string_of(&stem))
}

// ---------------------------------------------------------------------------
// The structure of `.cube` text.

/// What the floating-point reading of a line as an RGB sample gave: three
/// finite values within ±16, text that does not read as numbers, or numbers
/// that are not such a sample.
#[derive(Debug, Clone, Copy, PartialEq, Eq, Structural)]
pub enum LutSampleCheck {
    Valid,
    Unparsable,
    NotRgb,
}

/// `s` begins with `p`.
pub open spec fn starts_with_text(s: Seq<char>, p: Seq<char>) -> bool {
    p.len() <= s.len() && s.take(p.len() as int) == p
}

pub open spec fn title_tag() -> Seq<char> {
    seq!['T', 'I', 'T', 'L', 'E']
}

pub open spec fn size_3d_tag() -> Seq<char> {
    seq!['L', 'U', 'T', '_', '3', 'D', '_', 'S', 'I', 'Z', 'E']
}

pub open spec fn size_1d_tag() -> Seq<char> {
    seq!['L', 'U', 'T', '_', '1', 'D', '_', 'S', 'I', 'Z', 'E']
}

pub open spec fn domain_min_tag() -> Seq<char> {
    seq!['D', 'O', 'M', 'A', 'I', 'N', '_', 'M', 'I', 'N']
}

pub open spec fn domain_max_tag() -> Seq<char> {
    seq!['D', 'O', 'M', 'A', 'I', 'N', '_', 'M', 'A', 'X']
}

/// Leading `"` characters removed.
pub open spec fn strip_start_quotes(s: Seq<char>) -> Seq<char>
    decreases s.len(),
{
    if s.len() > 0 && s[0] == '"' {
        strip_start_quotes(s.drop_first())
    } else {
        s
    }
}

/// Trailing `"` characters removed.
pub open spec fn strip_end_quotes(s: Seq<char>) -> Seq<char>
    decreases s.len(),
{
    if s.len() > 0 && s.last() == '"' {
        strip_end_quotes(s.drop_last())
    } else {
        s
    }
}

/// The title a `TITLE` line gives: the rest of the line, trimmed and
/// without surrounding quotes (`trim().trim_matches('"')`).
pub open spec fn cube_title(rest: Seq<char>) -> Seq<char> {
    strip_end_quotes(strip_start_quotes(trimmed(rest)))
}

/// `usize::from_str`: an optional `+`, then one or more ASCII digits whose
/// value fits a `usize`.
pub open spec fn parse_usize(s: Seq<char>) -> Option<nat> {
    let d = if s.len() > 0 && s[0] == '+' {
        s.drop_first()
    } else {
        s
    };
    if d.len() > 0 && all_digits(d) && digits_value(d) <= usize::MAX {
        Some(digits_value(d) as nat)
    } else {
        None
    }
}

/// Reading the lines from `i` on, with the title, size and sample count
/// found so far: the first failure, or what the whole text declares.
pub open spec fn cube_scan(
    lines: Seq<Seq<char>>,
    checks: Seq<LutSampleCheck>,
    i: int,
    title: Option<Seq<char>>,
    size: Option<nat>,
    samples: nat,
) -> Result<(Option<Seq<char>>, Option<nat>, nat), Seq<char>>
    decreases lines.len() - i,
{
    if i < 0 || i >= lines.len() {
        Ok((title, size, samples))
    } else {
        let line = trimmed(lines[i]);
        let number = decimal((i + 1) as nat);
        if line.len() == 0 || line[0] == '#' {
            cube_scan(lines, checks, i + 1, title, size, samples)
        } else if starts_with_text(line, title_tag()) {
            let v = cube_title(line.skip(5));
            if v.len() == 0 || v.len() > 120 {
                Err("LUT TITLE must contain 1–120 characters"@)
            } else {
                cube_scan(lines, checks, i + 1, Some(v), size, samples)
            }
        } else if starts_with_text(line, size_3d_tag()) {
            match parse_usize(trimmed(line.skip(11))) {
                None => Err("invalid LUT_3D_SIZE at line "@ + number),
                Some(n) => if !(2 <= n <= 65) {
                    Err("LUT_3D_SIZE must be between 2 and 65"@)
                } else {
                    cube_scan(lines, checks, i + 1, title, Some(n), samples)
                },
            }
        } else if starts_with_text(line, size_1d_tag()) {
            Err("1D LUT import is not supported"@)
        } else if starts_with_text(line, domain_min_tag()) || starts_with_text(line, domain_max_tag()) {
            cube_scan(lines, checks, i + 1, title, size, samples)
        } else {
            match checks[i] {
                LutSampleCheck::Unparsable => Err("invalid LUT sample at line "@ + number),
                LutSampleCheck::NotRgb => Err("invalid RGB LUT sample at line "@ + number),
                LutSampleCheck::Valid => cube_scan(lines, checks, i + 1, title, size, samples + 1),
            }
        }
    }
}

/// What checking `.cube` text of `byte_length` bytes and these lines gives:
/// its title (`Imported LUT` where it names none) and its size, or why it
/// is refused; `checks[i]` is the floating-point reading of line `i`.
pub open spec fn cube_outcome(byte_length: nat, lines: Seq<Seq<char>>, checks: Seq<LutSampleCheck>) -> Result<
    (Seq<char>, nat),
    Seq<char>,
> {
    if byte_length > MAX_LUT_BYTES {
        Err("LUT exceeds the 4 MiB import limit"@)
    } else {
        match cube_scan(lines, checks, 0, None, None, 0) {
            Err(e) => Err(e),
            Ok((title, size, samples)) => match size {
                None => Err("LUT_3D_SIZE is required"@),
                Some(n) => if samples != n * n * n {
                    Err(
                        "LUT declares "@ + decimal(n) + "³ but contains "@ + decimal(samples) + " samples; expected "@
                            + decimal(n * n * n),
                    )
                } else {
                    Ok(
                        (
                            match title {
                                Some(t) => t,
                                None => "Imported LUT"@,
                            },
                            n,
                        ),
                    )
                },
            },
        }
    }
}

fn chars_start_with(t: &Vec<char>, p: &Vec<char>) -> (r: bool)
    ensures
        r == starts_with_text(t@, p@),
{
    if p.len() > t.len() {
        return false;
    }
    let mut k: usize = 0;
    while k < p.len()
        invariant
            p@.len() <= t@.len(),
            k <= p@.len(),
            forall|j: int| 0 <= j < k ==> #[trigger] t@[j] == p@[j],
        decreases p.len() - k,
    {
        if t[k] != p[k] {
            assert(t@.take(p@.len() as int)[k as int] != p@[k as int]);
            return false;
        }
        k = k + 1;
    }
    assert(t@.take(p@.len() as int) =~= p@);
    true
}

fn chars_after(t: &Vec<char>, k: usize) -> (r: String)
    requires
        k <= t@.len(),
    ensures
        r@ == t@.skip(k as int),
{
    let mut v: Vec<char> = Vec::new();
    let mut i: usize = k;
    while i < t.len()
        invariant
            k <= i <= t@.len(),
            v@ == t@.subrange(k as int, i as int),
        decreases t.len() - i,
    {
        v.push(t[i]);
        i = i + 1;
        assert(v@ =~= t@.subrange(k as int, i as int));
    }
    assert(v@ =~= t@.skip(k as int));
    string_of(&v)
}

proof fn lemma_strip_start_skip(s: Seq<char>, i: int)
    requires
        0 <= i <= s.len(),
        forall|j: int| 0 <= j < i ==> #[trigger] s[j] == '"',
        i == s.len() || s[i] != '"',
    ensures
        strip_start_quotes(s) == s.subrange(i, s.len() as int),
    decreases i,
{
    if i > 0 {
        assert(s.drop_first().subrange(i - 1, s.drop_first().len() as int) =~= s.subrange(i, s.len() as int));
        lemma_strip_start_skip(s.drop_first(), i - 1);
    } else {
        assert(s.subrange(0, s.len() as int) =~= s);
    }
}

proof fn lemma_strip_end_skip(s: Seq<char>, k: int)
    requires
        0 <= k <= s.len(),
        forall|j: int| k <= j < s.len() ==> #[trigger] s[j] == '"',
        k == 0 || s[k - 1] != '"',
    ensures
        strip_end_quotes(s) == s.subrange(0, k),
    decreases s.len() - k,
{
    if k < s.len() {
        assert(s.drop_last().subrange(0, k) =~= s.subrange(0, k));
        lemma_strip_end_skip(s.drop_last(), k);
    } else {
        assert(s.subrange(0, k) =~= s);
    }
}

fn strip_quotes(v: &Vec<char>) -> (r: Vec<char>)
    ensures
        r@ == strip_end_quotes(strip_start_quotes(v@)),
{
    let n = v.len();
    let mut start: usize = 0;
    while start < n && v[start] == '"'
        invariant
            n == v@.len(),
            start <= n,
            forall|j: int| 0 <= j < start ==> #[trigger] v@[j] == '"',
        decreases n - start,
    {
        start = start + 1;
    }
    proof {
        lemma_strip_start_skip(v@, start as int);
    }
    let ghost rest = v@.subrange(start as int, n as int);
    let mut end: usize = n;
    while end > start && v[end - 1] == '"'
        invariant
            n == v@.len(),
            start <= end <= n,
            forall|j: int| end <= j < n ==> #[trigger] v@[j] == '"',
        decreases end - start,
    {
        end = end - 1;
    }
    proof {
        assert forall|j: int| (end - start) <= j < rest.len() implies #[trigger] rest[j] == '"' by {
            assert(rest[j] == v@[start + j]);
        }
        if end > start {
            assert(rest[end - start - 1] == v@[end - 1]);
        }
        lemma_strip_end_skip(rest, end - start);
    }
    let mut r: Vec<char> = Vec::new();
    let mut i: usize = start;
    while i < end
        invariant
            start <= i <= end <= n,
            n == v@.len(),
            r@ == v@.subrange(start as int, i as int),
        decreases end - i,
    {
        r.push(v[i]);
        i = i + 1;
        assert(r@ =~= v@.subrange(start as int, i as int));
    }
    assert(r@ =~= rest.subrange(0, end - start));
    r
}

/// Reads a `usize` written in decimal, as `str::parse::<usize>` does.
#[verifier::loop_isolation(false)]
fn parse_usize_chars(cs: &Vec<char>) -> (r: Option<usize>)
    ensures
        r is Some <==> parse_usize(cs@) is Some,
        r matches Some(v) ==> parse_usize(cs@) == Some(v as nat),
{
    let n = cs.len();
    let start: usize = if n > 0 && cs[0] == '+' {
        1
    } else {
        0
    };
    let ghost s = cs@;
    let ghost d = if s.len() > 0 && s[0] == '+' {
        s.drop_first()
    } else {
        s
    };
    assert(d =~= s.subrange(start as int, n as int));
    if start == n {
        return None;
    }
    let mut value: u128 = 0;
    let mut i: usize = start;
    assert(d.subrange(0, 0) =~= Seq::<char>::empty());
    while i < n
        invariant
            start <= i <= n,
            value == digits_value(d.subrange(0, i - start)),
            all_digits(d.subrange(0, i - start)),
            value <= usize::MAX,
        decreases n - i,
    {
        let c = cs[i];
        assert(d[i - start] == c);
        if !('0' <= c && c <= '9') {
            assert(!all_digits(d));
            return None;
        }
        let ghost prefix = d.subrange(0, i + 1 - start);
        assert(prefix.drop_last() =~= d.subrange(0, i - start));
        assert(all_digits(prefix));
        let next: u128 = value * 10 + ((c as u32) - 48) as u128;
        assert(next == digits_value(prefix));
        if next > usize::MAX as u128 {
            proof {
                if all_digits(d) {
                    lemma_digits_value_grows(d, i + 1 - start);
                }
            }
            return None;
        }
        value = next;
        i = i + 1;
    }
    assert(d.subrange(0, n - start) =~= d);
    Some(value as usize)
}

/// The views of a list of strings.
pub open spec fn texts(v: Seq<String>) -> Seq<Seq<char>> {
    v.map_values(|l: String| l@)
}

/// Checks the structure of `.cube` text: at most 4 MiB, a title of 1–120
/// characters where one is given, one `LUT_3D_SIZE` in 2–65, no 1D table,
/// and exactly size³ sample lines, each read as an RGB sample
/// (`checks[i]` for line `i`). Gives the title and size.
#[verifier::loop_isolation(false)]
pub fn validate_cube_lines(byte_length: usize, lines: &Vec<String>, checks: &Vec<LutSampleCheck>) -> (r: Result<
    (String, usize),
    String,
>)
    requires
        checks@.len() == lines@.len(),
    ensures
        match cube_outcome(byte_length as nat, texts(lines@), checks@) {
            Ok((t, n)) => r is Ok && r->Ok_0.0@ == t && r->Ok_0.1 == n,
            Err(m) => r is Err && r->Err_0@ == m,
        },
{
    let ghost ls = texts(lines@);
    if byte_length > MAX_LUT_BYTES {
        return Err(owned("LUT exceeds the 4 MiB import limit"));
    }
    let title_tag_v: Vec<char> = vec!['T', 'I', 'T', 'L', 'E'];
    let size3_v: Vec<char> = vec!['L', 'U', 'T', '_', '3', 'D', '_', 'S', 'I', 'Z', 'E'];
    let size1_v: Vec<char> = vec!['L', 'U', 'T', '_', '1', 'D', '_', 'S', 'I', 'Z', 'E'];
    let dmin_v: Vec<char> = vec!['D', 'O', 'M', 'A', 'I', 'N', '_', 'M', 'I', 'N'];
    let dmax_v: Vec<char> = vec!['D', 'O', 'M', 'A', 'I', 'N', '_', 'M', 'A', 'X'];
    assert(title_tag_v@ =~= title_tag());
    assert(size3_v@ =~= size_3d_tag());
    assert(size1_v@ =~= size_1d_tag());
    assert(dmin_v@ =~= domain_min_tag());
    assert(dmax_v@ =~= domain_max_tag());
    let mut title: Option<String> = None;
    let mut size: Option<usize> = None;
    let mut samples: usize = 0;
    let mut i: usize = 0;
    while i < lines.len()
        invariant
            i <= lines@.len(),
            samples <= i,
            size matches Some(n) ==> 2 <= n <= 65,
            cube_scan(ls, checks@, 0, None, None, 0) == cube_scan(
                ls,
                checks@,
                i as int,
                match title {
                    Some(t) => Some(t@),
                    None => None,
                },
                match size {
                    Some(n) => Some(n as nat),
                    None => None,
                },
                samples as nat,
            ),
        decreases lines.len() - i,
    {
        let t = trim(lines[i].as_str());
        assert(ls[i as int] == lines@[i as int]@);
        assert(t@ == trimmed(ls[i as int]));
        let ghost tv = match &title {
            Some(x) => Some(x@),
            None => None,
        };
        let ghost sv = match size {
            Some(x) => Some(x as nat),
            None => None,
        };
        let ghost before = cube_scan(ls, checks@, i as int, tv, sv, samples as nat);
        let mut number = String::new();
        push_decimal(&mut number, (i + 1) as u64);
        if t.len() == 0 || t[0] == '#' {
            assert(before == cube_scan(ls, checks@, i + 1, tv, sv, samples as nat));
            i = i + 1;
            continue;
        }
        if chars_start_with(&t, &title_tag_v) {
            let rest = chars_after(&t, 5);
            let value = strip_quotes(&trim(rest.as_str()));
            if value.len() == 0 || value.len() > 120 {
                return Err(owned("LUT TITLE must contain 1–120 characters"));
            }
            let titled = string_of(&value);
            assert(titled@ == cube_title(t@.skip(5)));
            assert(before == cube_scan(ls, checks@, i + 1, Some(titled@), sv, samples as nat));
            title = Some(titled);
        } else if chars_start_with(&t, &size3_v) {
            let rest = chars_after(&t, 11);
            let parsed = match parse_usize_chars(&trim(rest.as_str())) {
                Some(n) => n,
                None => {
                    let mut message = owned("invalid LUT_3D_SIZE at line ");
                    push_str(&mut message, number.as_str());
                    return Err(message);
                },
            };
            if !(2 <= parsed && parsed <= 65) {
                return Err(owned("LUT_3D_SIZE must be between 2 and 65"));
            }
            assert(before == cube_scan(ls, checks@, i + 1, tv, Some(parsed as nat), samples as nat));
            size = Some(parsed);
        } else if chars_start_with(&t, &size1_v) {
            return Err(owned("1D LUT import is not supported"));
        } else if chars_start_with(&t, &dmin_v) || chars_start_with(&t, &dmax_v) {
            assert(before == cube_scan(ls, checks@, i + 1, tv, sv, samples as nat));
        } else {
            match checks[i] {
                LutSampleCheck::Unparsable => {
                    let mut message = owned("invalid LUT sample at line ");
                    push_str(&mut message, number.as_str());
                    return Err(message);
                },
                LutSampleCheck::NotRgb => {
                    let mut message = owned("invalid RGB LUT sample at line ");
                    push_str(&mut message, number.as_str());
                    return Err(message);
                },
                LutSampleCheck::Valid => {
                    assert(before == cube_scan(ls, checks@, i + 1, tv, sv, (samples + 1) as nat));
                    samples = samples + 1;
                },
            }
        }
        i = i + 1;
    }
    let n = match size {
        Some(n) => n,
        None => return Err(owned("LUT_3D_SIZE is required")),
    };
    assert(n * n <= 65 * 65 && n * n * n <= 65 * 65 * 65) by (nonlinear_arith)
        requires
            2 <= n <= 65,
    ;
    let expected = n * n * n;
    if samples != expected {
        let mut message = owned("LUT declares ");
        push_decimal(&mut message, n as u64);
        push_str(&mut message, "³ but contains ");
        push_decimal(&mut message, samples as u64);
        push_str(&mut message, " samples; expected ");
        push_decimal(&mut message, expected as u64);
        return Err(message);
    }
    match title {
        Some(t) => Ok((t, n)),
        None => Ok((owned("Imported LUT"), n)),
    }
}

// ---------------------------------------------------------------------------
// The catalog's imported entries.

/// The identifier of the LUT imported under `stem`: `imported:` and the stem.
pub fn imported_lut_id(stem: &str) -> (r: String)
    ensures
        r@ == imported_prefix() + stem@,
{
    proof {
        reveal_strlit("imported:");
    }
    let mut id = owned("imported:");
    push_str(&mut id, stem);
    id
}

/// Entry `a` comes before entry `b` when listed by name: its name orders
/// first, or the names are equal and it came first (a stable sort).
pub open spec fn listed_before(names: Seq<String>, a: int, b: int) -> bool {
    text_lt(names[a]@, names[b]@) || (names[a]@ == names[b]@ && a < b)
}

/// The positions of the entries in the order a stable sort by name lists
/// them: each position once, in `listed_before` order.
pub open spec fn is_name_order(names: Seq<String>, order: Seq<usize>) -> bool {
    &&& order.len() == names.len()
    &&& forall|i: int| 0 <= i < order.len() ==> #[trigger] order[i] < names.len()
    &&& forall|i: int, j: int| 0 <= i < j < order.len() ==> listed_before(names, #[trigger] order[i] as int, #[trigger] order[j] as int)
}

/// The order in which the imported entries are listed: by name, entries of
/// equal name in the order they were found (`sort_by` on the names).
pub fn name_order(names: &Vec<String>) -> (r: Vec<usize>)
    ensures
        is_name_order(names@, r@),
        forall|x: usize| x < names@.len() ==> r@.contains(x),
{
    let mut order: Vec<usize> = Vec::new();
    let mut k: usize = 0;
    while k < names.len()
        invariant
            k <= names@.len(),
            order@.len() == k,
            forall|i: int| 0 <= i < order@.len() ==> #[trigger] order@[i] < k,
            forall|i: int, j: int| 0 <= i < j < order@.len() ==> listed_before(names@, #[trigger] order@[i] as int, #[trigger] order@[j] as int),
            forall|x: usize| x < k ==> order@.contains(x),
        decreases names.len() - k,
    {
        let mut p: usize = 0;
        while p < order.len() && !text_before(names[k].as_str(), names[order[p]].as_str())
            invariant
                p <= order@.len(),
                k < names@.len(),
                forall|i: int| 0 <= i < order@.len() ==> #[trigger] order@[i] < k,
                forall|i: int| 0 <= i < p ==> !text_lt(names@[k as int]@, names@[#[trigger] order@[i] as int]@),
            decreases order.len() - p,
        {
            p = p + 1;
        }
        let ghost before = order@;
        proof {
            assert forall|i: int| 0 <= i < p implies listed_before(names@, #[trigger] before[i] as int, k as int) by {
                lemma_text_lt_total(names@[k as int]@, names@[before[i] as int]@);
            }
            assert forall|i: int| p <= i < before.len() implies listed_before(names@, k as int, #[trigger] before[i] as int) by {
                if i > p {
                    assert(listed_before(names@, before[p as int] as int, before[i] as int));
                    lemma_text_lt_total(names@[before[p as int] as int]@, names@[before[i] as int]@);
                    if text_lt(names@[before[p as int] as int]@, names@[before[i] as int]@) {
                        lemma_text_lt_transitive(names@[k as int]@, names@[before[p as int] as int]@, names@[before[i] as int]@);
                    }
                }
            }
        }
        order.insert(p, k);
        proof {
            let w = order@;
            assert(w == before.insert(p as int, k));
            assert forall|i: int, j: int| 0 <= i < j < w.len() implies listed_before(names@, #[trigger] w[i] as int, #[trigger] w[j] as int) by {
                if j < p {
                    assert(w[i] == before[i] && w[j] == before[j]);
                } else if j == p {
                    assert(w[i] == before[i]);
                } else if i < p {
                    assert(w[i] == before[i] && w[j] == before[j - 1]);
                    let a = before[i] as int;
                    let b = before[j - 1] as int;
                    assert(listed_before(names@, a, k as int) && listed_before(names@, k as int, b));
                    lemma_text_lt_total(names@[a]@, names@[k as int]@);
                    lemma_text_lt_total(names@[k as int]@, names@[b]@);
                    if text_lt(names@[a]@, names@[k as int]@) && text_lt(names@[k as int]@, names@[b]@) {
                        lemma_text_lt_transitive(names@[a]@, names@[k as int]@, names@[b]@);
                    }
                } else if i == p {
                    assert(w[j] == before[j - 1]);
                } else {
                    assert(w[i] == before[i - 1] && w[j] == before[j - 1]);
                }
            }
            assert forall|x: usize| x < k + 1 implies w.contains(x) by {
                if x == k {
                    assert(w[p as int] == k);
                } else {
                    assert(before.contains(x));
                    let t = choose|t: int| 0 <= t < before.len() && before[t] == x;
                    if t < p {
                        assert(w[t] == x);
                    } else {
                        assert(w[t + 1] == x);
                    }
                }
            }
            assert forall|i: int| 0 <= i < w.len() implies #[trigger] w[i] < k + 1 by {
                if i < p {
                    assert(w[i] == before[i]);
                } else if i > p {
                    assert(w[i] == before[i - 1]);
                }
            }
        }
        k = k + 1;
    }
    order
}

} // verus!
