//! Fixed-width integer readers over byte slices, in both byte orders.
use vstd::prelude::*;

verus! {


/// A window `[offset, offset + width)` lies inside a buffer of `len` bytes.
pub open spec fn fits(len: int, offset: int, width: int) -> bool {
    0 <= offset && offset + width <= len
}

pub open spec fn be16(b: Seq<u8>, o: int) -> int {
    b[o] as int * 0x100 + b[o + 1] as int
}

pub open spec fn le16(b: Seq<u8>, o: int) -> int {
    b[o + 1] as int * 0x100 + b[o] as int
}

pub open spec fn be32(b: Seq<u8>, o: int) -> int {
    b[o] as int * 0x100_0000 + b[o + 1] as int * 0x1_0000 + b[o + 2] as int * 0x100 + b[o
        + 3] as int
}

pub open spec fn le32(b: Seq<u8>, o: int) -> int {
    b[o + 3] as int * 0x100_0000 + b[o + 2] as int * 0x1_0000 + b[o + 1] as int * 0x100 + b[o] as int
}

pub open spec fn be64(b: Seq<u8>, o: int) -> int {
    be32(b, o) * 0x1_0000_0000 + be32(b, o + 4)
}

/// Two's-complement reading of a 32-bit big-endian value.
pub open spec fn be_i32(b: Seq<u8>, o: int) -> int {
    if be32(b, o) >= 0x8000_0000 {
        be32(b, o) - 0x1_0000_0000
    } else {
        be32(b, o)
    }
}

pub open spec fn spec_read_be_u16(b: Seq<u8>, o: int) -> Option<u16> {
    if fits(b.len() as int, o, 2) {
        Some(be16(b, o) as u16)
    } else {
        None
    }
}

pub open spec fn spec_read_be_u32(b: Seq<u8>, o: int) -> Option<u32> {
    if fits(b.len() as int, o, 4) {
        Some(be32(b, o) as u32)
    } else {
        None
    }
}

pub open spec fn spec_read_be_i32(b: Seq<u8>, o: int) -> Option<i32> {
    if fits(b.len() as int, o, 4) {
        Some(be_i32(b, o) as i32)
    } else {
        None
    }
}

pub open spec fn spec_read_be_u64(b: Seq<u8>, o: int) -> Option<u64> {
    if fits(b.len() as int, o, 8) {
        Some(be64(b, o) as u64)
    } else {
        None
    }
}

pub open spec fn spec_read_u16(b: Seq<u8>, o: int, little: bool) -> Option<u16> {
    if fits(b.len() as int, o, 2) {
        Some(
            if little {
                le16(b, o) as u16
            } else {
                be16(b, o) as u16
            },
        )
    } else {
        None
    }
}

pub open spec fn spec_read_u32(b: Seq<u8>, o: int, little: bool) -> Option<u32> {
    if fits(b.len() as int, o, 4) {
        Some(
            if little {
                le32(b, o) as u32
            } else {
                be32(b, o) as u32
            },
        )
    } else {
        None
    }
}

pub fn read_be_u16(bytes: &[u8], offset: usize) -> (r: Option<u16>)
    ensures
        r == spec_read_be_u16(bytes@, offset as int),
        r matches Some(v) ==> v as int == be16(bytes@, offset as int),
{
    if offset > bytes.len() || bytes.len() - offset < 2 {
        return None;
    }
    Some((bytes[offset] as u16) * 0x100 + bytes[offset + 1] as u16)
}

pub fn read_be_u32(bytes: &[u8], offset: usize) -> (r: Option<u32>)
    ensures
        r == spec_read_be_u32(bytes@, offset as int),
        r matches Some(v) ==> v as int == be32(bytes@, offset as int),
{
    if offset > bytes.len() || bytes.len() - offset < 4 {
        return None;
    }
    Some(
        (bytes[offset] as u32) * 0x100_0000 + (bytes[offset + 1] as u32) * 0x1_0000 + (bytes[offset
            + 2] as u32) * 0x100 + bytes[offset + 3] as u32,
    )
}

pub fn read_be_i32(bytes: &[u8], offset: usize) -> (r: Option<i32>)
    ensures
        r == spec_read_be_i32(bytes@, offset as int),
        r matches Some(v) ==> v as int == be_i32(bytes@, offset as int),
{
    match read_be_u32(bytes, offset) {
        None => None,
        Some(v) => {
            if v >= 0x8000_0000 {
                Some(((v - 0x8000_0000) as i64 - 0x8000_0000) as i32)
            } else {
                Some(v as i32)
            }
        },
    }
}

pub fn read_be_u64(bytes: &[u8], offset: usize) -> (r: Option<u64>)
    ensures
        r == spec_read_be_u64(bytes@, offset as int),
        r matches Some(v) ==> v as int == be64(bytes@, offset as int),
{
    if offset > bytes.len() || bytes.len() - offset < 8 {
        return None;
    }
    let high = read_be_u32(bytes, offset).unwrap();
    let low = read_be_u32(bytes, offset + 4).unwrap();
    Some((high as u64) * 0x1_0000_0000 + low as u64)
}

pub fn read_u16(bytes: &[u8], offset: usize, little: bool) -> (r: Option<u16>)
    ensures
        r == spec_read_u16(bytes@, offset as int, little),
{
    if offset > bytes.len() || bytes.len() - offset < 2 {
        return None;
    }
    if little {
        Some((bytes[offset + 1] as u16) * 0x100 + bytes[offset] as u16)
    } else {
        Some((bytes[offset] as u16) * 0x100 + bytes[offset + 1] as u16)
    }
}

pub fn read_u32(bytes: &[u8], offset: usize, little: bool) -> (r: Option<u32>)
    ensures
        r == spec_read_u32(bytes@, offset as int, little),
{
    if offset > bytes.len() || bytes.len() - offset < 4 {
        return None;
    }
    if little {
        Some(
            (bytes[offset + 3] as u32) * 0x100_0000 + (bytes[offset + 2] as u32) * 0x1_0000 + (
            bytes[offset + 1] as u32) * 0x100 + bytes[offset] as u32,
        )
    } else {
        read_be_u32(bytes, offset)
    }
}

/// `bytes[start..end]` as a fresh vector.
pub fn copy_range(bytes: &[u8], start: usize, end: usize) -> (r: Vec<u8>)
    requires
        start <= end <= bytes@.len(),
    ensures
        r@ == bytes@.subrange(start as int, end as int),
{
    let mut r: Vec<u8> = Vec::new();
    let mut i = start;
    while i < end
        invariant
            start <= i <= end <= bytes@.len(),
            r@ == bytes@.subrange(start as int, i as int),
        decreases end - i,
    {
        r.push(bytes[i]);
        i = i + 1;
        assert(r@ =~= bytes@.subrange(start as int, i as int));
    }
    r
}

/// `bytes[start..]` begins with `prefix`.
pub fn has_prefix_at(bytes: &[u8], start: usize, end: usize, prefix: &[u8]) -> (r: bool)
    requires
        start <= end <= bytes@.len(),
    ensures
        r == (prefix@.len() <= end - start && bytes@.subrange(start as int, start + prefix@.len())
            == prefix@),
{
    if prefix.len() > end - start {
        return false;
    }
    let mut i: usize = 0;
    while i < prefix.len()
        invariant
            prefix@.len() <= end - start,
            start <= end <= bytes@.len(),
            i <= prefix@.len(),
            forall|j: int| 0 <= j < i ==> bytes@[start + j] == prefix@[j],
        decreases prefix.len() - i,
    {
        if bytes[start + i] != prefix[i] {
            assert(bytes@.subrange(start as int, start + prefix@.len())[i as int] != prefix@[i as int]);
            return false;
        }
        i = i + 1;
    }
    assert(bytes@.subrange(start as int, start + prefix@.len()) =~= prefix@);
    true
}

/// Appends `src[start..end]` to `out`.
pub fn extend_range(out: &mut Vec<u8>, src: &[u8], start: usize, end: usize)
    requires
        start <= end <= src@.len(),
    ensures
        final(out)@ == old(out)@ + src@.subrange(start as int, end as int),
{
    let mut i = start;
    while i < end
        invariant
            start <= i <= end <= src@.len(),
            out@ == old(out)@ + src@.subrange(start as int, i as int),
        decreases end - i,
    {
        out.push(src[i]);
        i = i + 1;
        assert(out@ =~= old(out)@ + src@.subrange(start as int, i as int));
    }
}

} // verus!
