use vstd::prelude::*;
use vstd::utf8::{decode_utf8, valid_utf8};
use crate::error::TdmsError;

verus! {

/// Whether `n` bytes are available at `p`.
pub open spec fn spec_fits(s: Seq<u8>, p: int, n: int) -> bool {
    0 <= p && p + n <= s.len()
}

/// The little-endian `u32` whose bytes start at `p`.
pub open spec fn spec_u32_le(s: Seq<u8>, p: int) -> int {
    s[p] as int + 256 * (s[p + 1] as int + 256 * (s[p + 2] as int + 256 * (s[p + 3] as int)))
}

/// The little-endian `u16` whose bytes start at `p`.
pub open spec fn spec_u16_le(s: Seq<u8>, p: int) -> int {
    s[p] as int + 256 * (s[p + 1] as int)
}

/// The little-endian `u64` whose bytes start at `p`.
pub open spec fn spec_u64_le(s: Seq<u8>, p: int) -> int {
    spec_u32_le(s, p) + 4294967296 * spec_u32_le(s, p + 4)
}

/// Relies on `String::from_utf8`: it accepts exactly the valid UTF-8 byte
/// sequences and returns the characters they encode.
#[verifier::external_body]
fn utf8_to_string(bytes: Vec<u8>) -> (r: Option<String>)
    ensures
        r is Some <==> valid_utf8(bytes@),
        r matches Some(s) ==> s@ == decode_utf8(bytes@),
{
    match String::from_utf8(bytes) {
        Ok(s) => Some(s),
        Err(_) => None,
    }
}

/// Reads one byte at `*pos` and advances past it.
pub fn read_u8(data: &[u8], pos: &mut usize) -> (r: Result<u8, TdmsError>)
    ensures
        match r {
            Ok(v) => spec_fits(data@, *old(pos) as int, 1) && v == data@[*old(pos) as int]
                && *final(pos) == *old(pos) + 1,
            Err(e) => !spec_fits(data@, *old(pos) as int, 1)
                && e == (TdmsError::TruncatedInput { position: *old(pos) as u64 })
                && *final(pos) == *old(pos),
        },
{
    if *pos >= data.len() {
        return Err(TdmsError::TruncatedInput { position: *pos as u64 });
    }
    let v = data[*pos];
    *pos = *pos + 1;
    Ok(v)
}

/// Reads a little-endian `u16` at `*pos` and advances past it.
pub fn read_u16(data: &[u8], pos: &mut usize) -> (r: Result<u16, TdmsError>)
    ensures
        match r {
            Ok(v) => spec_fits(data@, *old(pos) as int, 2) && v as int == spec_u16_le(
                data@,
                *old(pos) as int,
            ) && *final(pos) == *old(pos) + 2,
            Err(e) => !spec_fits(data@, *old(pos) as int, 2)
                && e == (TdmsError::TruncatedInput { position: *old(pos) as u64 })
                && *final(pos) == *old(pos),
        },
{
    let p = *pos;
    if p > data.len() || data.len() - p < 2 {
        return Err(TdmsError::TruncatedInput { position: p as u64 });
    }
    let v: u16 = data[p] as u16 + 256 * (data[p + 1] as u16);
    *pos = p + 2;
    Ok(v)
}

/// Reads a little-endian `u32` at `*pos` and advances past it.
pub fn read_u32(data: &[u8], pos: &mut usize) -> (r: Result<u32, TdmsError>)
    ensures
        match r {
            Ok(v) => spec_fits(data@, *old(pos) as int, 4) && v as int == spec_u32_le(
                data@,
                *old(pos) as int,
            ) && *final(pos) == *old(pos) + 4,
            Err(e) => !spec_fits(data@, *old(pos) as int, 4)
                && e == (TdmsError::TruncatedInput { position: *old(pos) as u64 })
                && *final(pos) == *old(pos),
        },
{
    let p = *pos;
    if p > data.len() || data.len() - p < 4 {
        return Err(TdmsError::TruncatedInput { position: p as u64 });
    }
    let b0 = data[p] as u32;
    let b1 = data[p + 1] as u32;
    let b2 = data[p + 2] as u32;
    let b3 = data[p + 3] as u32;
    let v: u32 = b0 + 256 * (b1 + 256 * (b2 + 256 * b3));
    *pos = p + 4;
    Ok(v)
}

/// Reads a little-endian `i32` at `*pos` and advances past it.
pub fn read_i32(data: &[u8], pos: &mut usize) -> (r: Result<i32, TdmsError>)
    ensures
        match r {
            Ok(v) => spec_fits(data@, *old(pos) as int, 4) && v == spec_u32_le(
                data@,
                *old(pos) as int,
            ) as u32 as i32 && *final(pos) == *old(pos) + 4,
            Err(e) => !spec_fits(data@, *old(pos) as int, 4)
                && e == (TdmsError::TruncatedInput { position: *old(pos) as u64 })
                && *final(pos) == *old(pos),
        },
{
    let v = read_u32(data, pos)?;
    Ok(v as i32)
}

/// Reads a little-endian `u64` at `*pos` and advances past it.
pub fn read_u64(data: &[u8], pos: &mut usize) -> (r: Result<u64, TdmsError>)
    ensures
        match r {
            Ok(v) => spec_fits(data@, *old(pos) as int, 8) && v as int == spec_u64_le(
                data@,
                *old(pos) as int,
            ) && *final(pos) == *old(pos) + 8,
            Err(e) => !spec_fits(data@, *old(pos) as int, 8)
                && e == (TdmsError::TruncatedInput { position: *old(pos) as u64 })
                && *final(pos) == *old(pos),
        },
{
    let p = *pos;
    if p > data.len() || data.len() - p < 8 {
        return Err(TdmsError::TruncatedInput { position: p as u64 });
    }
    let mut q = p;
    let lo = read_u32(data, &mut q)?;
    let hi = read_u32(data, &mut q)?;
    *pos = q;
    Ok(lo as u64 + 4294967296 * (hi as u64))
}

/// Copies `n` bytes starting at `p`.
fn copy_bytes(data: &[u8], p: usize, n: usize) -> (r: Vec<u8>)
    requires
        spec_fits(data@, p as int, n as int),
    ensures
        r@ == data@.subrange(p as int, p + n),
{
    let mut out: Vec<u8> = Vec::new();
    let mut i: usize = 0;
    while i < n
        invariant
            i <= n,
            spec_fits(data@, p as int, n as int),
            data@.len() == data.len(),
            out@ == data@.subrange(p as int, p + i),
        decreases n - i,
    {
        out.push(data[p + i]);
        i = i + 1;
        assert(out@ =~= data@.subrange(p as int, p + i));
    }
    out
}

/// The outcome of reading a length-prefixed UTF-8 string at `p`: the text and
/// the position after it, or the error.
pub open spec fn spec_read_string(s: Seq<u8>, p: int) -> Result<(Seq<char>, int), TdmsError> {
    if !spec_fits(s, p, 4) {
        Err(TdmsError::TruncatedInput { position: p as u64 })
    } else if !spec_fits(s, p + 4, spec_u32_le(s, p)) {
        Err(TdmsError::TruncatedInput { position: (p + 4) as u64 })
    } else if !valid_utf8(s.subrange(p + 4, p + 4 + spec_u32_le(s, p))) {
        Err(TdmsError::InvalidUtf8 { position: (p + 4) as u64 })
    } else {
        Ok(
            (
                decode_utf8(s.subrange(p + 4, p + 4 + spec_u32_le(s, p))),
                p + 4 + spec_u32_le(s, p),
            ),
        )
    }
}

/// Reads a `u32` byte length followed by that many bytes of UTF-8 text.
pub fn read_string(data: &[u8], pos: &mut usize) -> (r: Result<String, TdmsError>)
    ensures
        match (r, spec_read_string(data@, *old(pos) as int)) {
            (Ok(v), Ok((t, q))) => v@ == t && *final(pos) as int == q,
            (Err(e), Err(f)) => e == f,
            _ => false,
        },
{
    let p = *pos;
    let n = read_u32(data, pos)?;
    let start = *pos;
    if start > data.len() || data.len() - start < n as usize {
        *pos = p;
        return Err(TdmsError::TruncatedInput { position: start as u64 });
    }
    let bytes = copy_bytes(data, start, n as usize);
    match utf8_to_string(bytes) {
        Some(s) => {
            *pos = start + n as usize;
            Ok(s)
        },
        None => {
            *pos = p;
            Err(TdmsError::InvalidUtf8 { position: start as u64 })
        },
    }
}

} // verus!
