use vstd::prelude::*;

verus! {

use vstd::bytes::*;
use vstd::string::*;
use vstd::utf8::*;
use vstd::slice::slice_to_vec;

// ------------------------------------------------------------------
// Little-endian byte images of the scalar values the engine stores.
// ------------------------------------------------------------------

pub open spec fn u8_le(x: u8) -> Seq<u8> {
    seq![x]
}

pub open spec fn i8_le(x: i8) -> Seq<u8> {
    seq![x as u8]
}

pub open spec fn i16_le(x: i16) -> Seq<u8> {
    spec_u16_to_le_bytes(x as u16)
}

pub open spec fn u32_le(x: u32) -> Seq<u8> {
    spec_u32_to_le_bytes(x)
}

pub open spec fn u64_le(x: u64) -> Seq<u8> {
    spec_u64_to_le_bytes(x)
}

pub open spec fn i64_le(x: i64) -> Seq<u8> {
    spec_u64_to_le_bytes(x as u64)
}

/// A string is stored as the byte length of its UTF-8 form, then the bytes.
pub open spec fn string_le(s: Seq<char>) -> Seq<u8> {
    u32_le(encode_utf8(s).len() as u32) + encode_utf8(s)
}

/// Casting an `i64` through `u64` and back is the identity.
pub proof fn lemma_i64_u64_roundtrip(x: i64)
    ensures
        (x as u64) as i64 == x,
{
    assert((x as u64) as i64 == x) by (bit_vector);
}

// ------------------------------------------------------------------
// Writers: append the byte image of one value to a buffer.
// ------------------------------------------------------------------

pub fn u8_to_byte(x: u8, dest: &mut Vec<u8>)
    ensures
        final(dest)@ == old(dest)@ + u8_le(x),
{
    dest.push(x);
    assert(final(dest)@ =~= old(dest)@ + u8_le(x));
}

pub fn i8_to_byte(x: i8, dest: &mut Vec<u8>)
    ensures
        final(dest)@ == old(dest)@ + i8_le(x),
{
    dest.push(x as u8);
    assert(final(dest)@ =~= old(dest)@ + i8_le(x));
}

pub fn i16_to_byte(x: i16, dest: &mut Vec<u8>)
    ensures
        final(dest)@ == old(dest)@ + i16_le(x),
{
    let mut bytes = u16_to_le_bytes(x as u16);
    dest.append(&mut bytes);
}

pub fn u32_to_byte(x: u32, dest: &mut Vec<u8>)
    ensures
        final(dest)@ == old(dest)@ + u32_le(x),
{
    let mut bytes = u32_to_le_bytes(x);
    dest.append(&mut bytes);
}

pub fn u64_to_byte(x: u64, dest: &mut Vec<u8>)
    ensures
        final(dest)@ == old(dest)@ + u64_le(x),
{
    let mut bytes = u64_to_le_bytes(x);
    dest.append(&mut bytes);
}

pub fn i64_to_byte(x: i64, dest: &mut Vec<u8>)
    ensures
        final(dest)@ == old(dest)@ + i64_le(x),
{
    let mut bytes = u64_to_le_bytes(x as u64);
    dest.append(&mut bytes);
}

/// Appends the length-prefixed UTF-8 image of `s`; fails only when the
/// encoding does not fit the 4-byte length field.
pub fn string_to_byte(s: &str, dest: &mut Vec<u8>) -> (r: Result<(), String>)
    ensures
        match r {
            Ok(()) => encode_utf8(s@).len() <= u32::MAX && final(dest)@ == old(dest)@ + string_le(
                s@,
            ),
            Err(_) => encode_utf8(s@).len() > u32::MAX && final(dest)@ == old(dest)@,
        },
{
    let mut bytes = s.as_bytes_vec();
    if bytes.len() > u32::MAX as usize {
        return Err(String::from_str("string too long to serialize"));
    }
    u32_to_byte(bytes.len() as u32, dest);
    dest.append(&mut bytes);
    Ok(())
}

// ------------------------------------------------------------------
// Readers: parse one value at a position of a buffer.
// Each reader's result is pinned exactly by the bytes it consumed.
// ------------------------------------------------------------------

pub fn u8_from_byte(src: &Vec<u8>, pos: usize) -> (r: Option<(u8, usize)>)
    ensures
        match r {
            Some((x, p)) => pos + 1 <= src@.len() && x == src@[pos as int] && p == pos + 1,
            None => pos + 1 > src@.len(),
        },
{
    if pos < src.len() {
        Some((src[pos], pos + 1))
    } else {
        None
    }
}

pub fn i8_from_byte(src: &Vec<u8>, pos: usize) -> (r: Option<(i8, usize)>)
    ensures
        match r {
            Some((x, p)) => pos + 1 <= src@.len() && x == src@[pos as int] as i8 && p == pos + 1,
            None => pos + 1 > src@.len(),
        },
{
    if pos < src.len() {
        Some((src[pos] as i8, pos + 1))
    } else {
        None
    }
}

pub fn i16_from_byte(src: &Vec<u8>, pos: usize) -> (r: Option<(i16, usize)>)
    ensures
        match r {
            Some((x, p)) => pos + 2 <= src@.len() && x == spec_u16_from_le_bytes(
                src@.subrange(pos as int, pos + 2),
            ) as i16 && p == pos + 2,
            None => pos + 2 > src@.len(),
        },
{
    if pos < src.len() && src.len() - pos >= 2 {
        let x = u16_from_le_bytes(&src.as_slice()[pos..pos + 2]);
        Some((#[verifier::truncate] (x as i16), pos + 2))
    } else {
        None
    }
}

pub fn u32_from_byte(src: &Vec<u8>, pos: usize) -> (r: Option<(u32, usize)>)
    ensures
        match r {
            Some((x, p)) => pos + 4 <= src@.len() && x == spec_u32_from_le_bytes(
                src@.subrange(pos as int, pos + 4),
            ) && p == pos + 4,
            None => pos + 4 > src@.len(),
        },
{
    if pos < src.len() && src.len() - pos >= 4 {
        let x = u32_from_le_bytes(&src.as_slice()[pos..pos + 4]);
        Some((x, pos + 4))
    } else {
        None
    }
}

pub fn u64_from_byte(src: &Vec<u8>, pos: usize) -> (r: Option<(u64, usize)>)
    ensures
        match r {
            Some((x, p)) => pos + 8 <= src@.len() && x == spec_u64_from_le_bytes(
                src@.subrange(pos as int, pos + 8),
            ) && p == pos + 8,
            None => pos + 8 > src@.len(),
        },
{
    if pos < src.len() && src.len() - pos >= 8 {
        let x = u64_from_le_bytes(&src.as_slice()[pos..pos + 8]);
        Some((x, pos + 8))
    } else {
        None
    }
}

pub fn i64_from_byte(src: &Vec<u8>, pos: usize) -> (r: Option<(i64, usize)>)
    ensures
        match r {
            Some((x, p)) => pos + 8 <= src@.len() && x == spec_u64_from_le_bytes(
                src@.subrange(pos as int, pos + 8),
            ) as i64 && p == pos + 8,
            None => pos + 8 > src@.len(),
        },
{
    match u64_from_byte(src, pos) {
        Some((x, p)) => Some((x as i64, p)),
        None => None,
    }
}

/// Relies on `String::from_utf8`: it returns the string whose UTF-8
/// encoding is exactly the given bytes, and fails precisely on bytes that
/// are not valid UTF-8.
#[verifier::external_body]
pub fn string_from_utf8(bytes: Vec<u8>) -> (r: Option<String>)
    ensures
        match r {
            Some(s) => encode_utf8(s@) == bytes@,
            None => !valid_utf8(bytes@),
        },
        valid_utf8(bytes@) ==> r is Some,
{
    String::from_utf8(bytes).ok()
}

/// What parsing a length-prefixed string at `pos` yields, if anything.
pub open spec fn parse_string_at(src: Seq<u8>, pos: int) -> Option<(Seq<char>, int)> {
    if pos < src.len() && src.len() - pos >= 4 {
        let n = spec_u32_from_le_bytes(src.subrange(pos, pos + 4)) as int;
        if pos + 4 + n <= src.len() && valid_utf8(src.subrange(pos + 4, pos + 4 + n)) {
            Some((decode_utf8(src.subrange(pos + 4, pos + 4 + n)), pos + 4 + n))
        } else {
            None
        }
    } else {
        None
    }
}

pub fn string_from_byte(src: &Vec<u8>, pos: usize) -> (r: Option<(String, usize)>)
    ensures
        match r {
            Some((s, p)) => parse_string_at(src@, pos as int) == Some((s@, p as int)) && pos <= p
                <= src@.len(),
            None => parse_string_at(src@, pos as int) is None,
        },
{
    match u32_from_byte(src, pos) {
        Some((n, p)) => {
            let n = n as usize;
            if n <= src.len() - p {
                let bytes = slice_to_vec(&src.as_slice()[p..p + n]);
                match string_from_utf8(bytes) {
                    Some(s) => {
                        proof {
                            broadcast use vstd::utf8::encode_utf8_decode_utf8;

                            assert(decode_utf8(src@.subrange(p as int, p + n)) == s@);
                            broadcast use vstd::utf8::encode_utf8_valid_utf8;

                            assert(valid_utf8(src@.subrange(p as int, p + n)));
                        }
                        Some((s, p + n))
                    },
                    None => None,
                }
            } else {
                None
            }
        },
        None => None,
    }
}

/// Parsing reads back exactly the string that was written.
pub proof fn lemma_string_le_parses(prefix: Seq<u8>, s: Seq<char>, suffix: Seq<u8>)
    requires
        encode_utf8(s).len() <= u32::MAX,
    ensures
        parse_string_at(prefix + string_le(s) + suffix, prefix.len() as int) == Some(
            (s, prefix.len() + string_le(s).len() as int),
        ),
{
    broadcast use vstd::utf8::encode_utf8_decode_utf8;
    broadcast use vstd::utf8::encode_utf8_valid_utf8;

    let all = prefix + string_le(s) + suffix;
    let pos = prefix.len() as int;
    let enc = encode_utf8(s);
    lemma_auto_spec_u32_to_from_le_bytes();
    assert(all.subrange(pos, pos + 4) =~= u32_le(enc.len() as u32));
    assert(spec_u32_from_le_bytes(all.subrange(pos, pos + 4)) == enc.len() as u32);
    assert(all.subrange(pos + 4, pos + 4 + enc.len()) =~= enc);
    assert(decode_utf8(enc) == s);
}

} // verus!
