use vstd::prelude::*;
use crate::types::{TypeName, ValV};
use crate::serialize::{u32_le, i64_le, u64_le, u32_to_byte, u32_from_byte, i64_from_byte};
use crate::storage::{ColumnDataStorage, ints_view, floats_view, strings_view};

verus! {

use vstd::bytes::*;
use vstd::utf8::*;
use vstd::slice::slice_to_vec;

/// The largest byte count the LZ4 block format accepts as one input.
pub const LZ4_MAX_INPUT: usize = 0x7E00_0000;

// ------------------------------------------------------------------
// Trusted face of the LZ4 block codec.
// ------------------------------------------------------------------

/// The LZ4 block image of a byte sequence, as `lz4::block::compress`
/// computes it (a pure function of the bytes).
pub uninterp spec fn lz4_block_of(data: Seq<u8>) -> Seq<u8>;

/// What `lz4::block::decompress` makes of a byte sequence and an expected
/// size (a pure function of the two; `None` where it reports an error).
pub uninterp spec fn lz4_unblock(data: Seq<u8>, size: int) -> Option<Seq<u8>>;

/// Relies on `lz4::block::compress` (block format, default mode, no size
/// prefix): deterministic in the input; succeeds whenever the input is not
/// longer than the LZ4 block limit; decompressing the result with the
/// input's length yields the input again.
#[verifier::external_body]
fn lz4_compress(data: &Vec<u8>) -> (r: Result<Vec<u8>, String>)
    ensures
        match r {
            Ok(c) => c@ == lz4_block_of(data@) && lz4_unblock(c@, data@.len() as int) == Some(
                data@,
            ),
            Err(_) => data@.len() > LZ4_MAX_INPUT,
        },
{
    match lz4::block::compress(data.as_slice(), None, false) {
        Ok(c) => Ok(c),
        Err(e) => Err(e.to_string()),
    }
}

/// Relies on `lz4::block::decompress` with an explicit size: deterministic
/// in the bytes and the size; reports an error exactly where the C library
/// rejects the data.
#[verifier::external_body]
fn lz4_decompress(data: &Vec<u8>, size: usize) -> (r: Result<Vec<u8>, String>)
    requires
        size <= LZ4_MAX_INPUT,
    ensures
        match r {
            Ok(d) => lz4_unblock(data@, size as int) == Some(d@),
            Err(_) => lz4_unblock(data@, size as int) is None,
        },
{
    match lz4::block::decompress(data.as_slice(), Some(size as i32)) {
        Ok(d) => Ok(d),
        Err(e) => Err(e.to_string()),
    }
}

// ------------------------------------------------------------------
// The byte image of one chunk.
// ------------------------------------------------------------------

/// The concatenation of `f` over the elements of `s`.
pub open spec fn concat_map<A>(s: Seq<A>, f: spec_fn(A) -> Seq<u8>) -> Seq<u8>
    decreases s.len(),
{
    if s.len() == 0 {
        Seq::empty()
    } else {
        f(s[0]) + concat_map(s.drop_first(), f)
    }
}

pub proof fn lemma_concat_map_split<A>(s: Seq<A>, f: spec_fn(A) -> Seq<u8>, i: int)
    requires
        0 <= i <= s.len(),
    ensures
        concat_map(s, f) == concat_map(s.take(i), f) + concat_map(s.skip(i), f),
    decreases i,
{
    if i == 0 {
        assert(s.take(0) =~= Seq::empty());
        assert(s.skip(0) =~= s);
        assert(concat_map(s, f) =~= concat_map(s.take(0), f) + concat_map(s.skip(0), f));
    } else {
        assert(s.len() > 0);
        lemma_concat_map_split(s.drop_first(), f, i - 1);
        assert(s.drop_first().take(i - 1) =~= s.take(i).drop_first());
        assert(s.drop_first().skip(i - 1) =~= s.skip(i));
        assert(s.take(i).len() > 0);
        assert(s.take(i)[0] == s[0]);
        assert(concat_map(s.take(i), f) == f(s[0]) + concat_map(s.take(i).drop_first(), f));
        assert(concat_map(s, f) =~= concat_map(s.take(i), f) + concat_map(s.skip(i), f));
    }
}

/// Unfolding one element off the middle of a concatenation.
pub proof fn lemma_concat_map_skip_unfold<A>(s: Seq<A>, f: spec_fn(A) -> Seq<u8>, i: int)
    requires
        0 <= i < s.len(),
    ensures
        concat_map(s.skip(i), f) == f(s[i]) + concat_map(s.skip(i + 1), f),
{
    assert(s.skip(i).len() > 0);
    assert(s.skip(i)[0] == s[i]);
    assert(s.skip(i).drop_first() =~= s.skip(i + 1));
}

pub proof fn lemma_concat_map_len<A>(s: Seq<A>, f: spec_fn(A) -> Seq<u8>, w: int)
    requires
        w >= 0,
        forall|j: int| 0 <= j < s.len() ==> (#[trigger] f(s[j])).len() == w,
    ensures
        concat_map(s, f).len() == s.len() * w,
    decreases s.len(),
{
    if s.len() == 0 {
    } else {
        assert(forall|j: int|
            0 <= j < s.drop_first().len() ==> (#[trigger] f(s.drop_first()[j])).len() == w) by {
            assert(forall|j: int|
                0 <= j < s.drop_first().len() ==> s.drop_first()[j] == s[j + 1]);
        }
        lemma_concat_map_len(s.drop_first(), f, w);
        assert(f(s[0]).len() == w);
        assert((s.len() - 1) * w + w == s.len() * w) by (nonlinear_arith);
    }
}

pub proof fn lemma_concat_map_index<A>(s: Seq<A>, f: spec_fn(A) -> Seq<u8>, w: int, i: int)
    requires
        w >= 0,
        0 <= i < s.len(),
        forall|j: int| 0 <= j < s.len() ==> (#[trigger] f(s[j])).len() == w,
    ensures
        i * w + w <= concat_map(s, f).len(),
        concat_map(s, f).subrange(i * w, i * w + w) == f(s[i]),
{
    lemma_concat_map_len(s, f, w);
    lemma_concat_map_split(s, f, i);
    lemma_concat_map_len(s.take(i), f, w);
    lemma_concat_map_skip_unfold(s, f, i);
    assert(i * w <= s.len() * w && i * w + w <= s.len() * w) by (nonlinear_arith)
        requires
            0 <= i < s.len(),
            w >= 0,
    ;
    assert(concat_map(s, f) == concat_map(s.take(i), f) + (f(s[i]) + concat_map(s.skip(i + 1), f)));
    assert(concat_map(s, f).subrange(i * w, i * w + w) =~= f(s[i]));
}

/// The 8-byte image of one fixed-width element.
pub open spec fn val_fixed_le(t: TypeName, v: ValV) -> Seq<u8> {
    if t == TypeName::DBInt {
        i64_le(v.as_int())
    } else {
        u64_le(v.as_float())
    }
}

pub open spec fn fixed_fn(t: TypeName) -> spec_fn(ValV) -> Seq<u8> {
    |v: ValV| val_fixed_le(t, v)
}

pub open spec fn len_fn() -> spec_fn(ValV) -> Seq<u8> {
    |v: ValV| u32_le(encode_utf8(v.as_str_seq()).len() as u32)
}

pub open spec fn bytes_fn() -> spec_fn(ValV) -> Seq<u8> {
    |v: ValV| encode_utf8(v.as_str_seq())
}

/// The uncompressed payload of one chunk: raw fixed-width elements, or for
/// strings the array of byte lengths followed by the concatenated UTF-8.
pub open spec fn payload_of(t: TypeName, vals: Seq<ValV>) -> Seq<u8> {
    if t == TypeName::DBString {
        concat_map(vals, len_fn()) + concat_map(vals, bytes_fn())
    } else {
        concat_map(vals, fixed_fn(t))
    }
}

/// Whether a value sequence fits one chunk of type `t`.
pub open spec fn chunkable(t: TypeName, vals: Seq<ValV>) -> bool {
    &&& forall|i: int| 0 <= i < vals.len() ==> (#[trigger] vals[i]).dtype() == t
    &&& vals.len() <= u32::MAX
    &&& payload_of(t, vals).len() <= LZ4_MAX_INPUT
    &&& t == TypeName::DBString ==> forall|i: int|
        0 <= i < vals.len() ==> encode_utf8((#[trigger] vals[i]).as_str_seq()).len() <= u32::MAX
}

/// The full byte image of one chunk: three little-endian u32 header words
/// (row count, payload size, block size), then the LZ4 block.
pub open spec fn chunk_le(t: TypeName, vals: Seq<ValV>) -> Seq<u8> {
    let p = payload_of(t, vals);
    let b = lz4_block_of(p);
    u32_le(vals.len() as u32) + u32_le(p.len() as u32) + u32_le(b.len() as u32) + b
}

// ------------------------------------------------------------------
// The parse of one chunk: what a reader yields on any bytes.
// ------------------------------------------------------------------

/// The fixed-width element at slot `i` of a payload.
pub open spec fn fixed_val_at(t: TypeName, payload: Seq<u8>, i: int) -> ValV {
    let w = spec_u64_from_le_bytes(payload.subrange(8 * i, 8 * i + 8));
    if t == TypeName::DBInt {
        ValV::I(w as i64)
    } else {
        ValV::F(w)
    }
}

pub open spec fn parse_fixed(t: TypeName, payload: Seq<u8>, rows: nat) -> Option<Seq<ValV>> {
    if payload.len() == 8 * rows {
        Some(Seq::new(rows, |i: int| fixed_val_at(t, payload, i)))
    } else {
        None
    }
}

/// Parses `k` strings whose length words start at `li` and whose bytes
/// start at `bp`; the payload must be consumed exactly.
pub open spec fn parse_strs_rec(payload: Seq<u8>, li: int, bp: int, k: nat) -> Option<Seq<ValV>>
    decreases k,
{
    if k == 0 {
        if bp == payload.len() {
            Some(Seq::empty())
        } else {
            None
        }
    } else {
        if li + 4 <= payload.len() && 0 <= li && 0 <= bp {
            let l = spec_u32_from_le_bytes(payload.subrange(li, li + 4)) as int;
            if bp + l <= payload.len() && valid_utf8(payload.subrange(bp, bp + l)) {
                match parse_strs_rec(payload, li + 4, bp + l, (k - 1) as nat) {
                    Some(rest) => Some(
                        seq![ValV::S(decode_utf8(payload.subrange(bp, bp + l)))] + rest,
                    ),
                    None => None,
                }
            } else {
                None
            }
        } else {
            None
        }
    }
}

pub open spec fn parse_payload(t: TypeName, payload: Seq<u8>, rows: nat) -> Option<Seq<ValV>> {
    if t == TypeName::DBString {
        parse_strs_rec(payload, 0, 4 * rows as int, rows)
    } else {
        parse_fixed(t, payload, rows)
    }
}

/// What reading one chunk of type `t` at `pos` yields, if anything: the
/// values and the position just past the chunk.
pub open spec fn parse_chunk(t: TypeName, bytes: Seq<u8>, pos: int) -> Option<(Seq<ValV>, int)> {
    if 0 <= pos && pos + 12 <= bytes.len() {
        let rows = spec_u32_from_le_bytes(bytes.subrange(pos, pos + 4)) as int;
        let psize = spec_u32_from_le_bytes(bytes.subrange(pos + 4, pos + 8)) as int;
        let csize = spec_u32_from_le_bytes(bytes.subrange(pos + 8, pos + 12)) as int;
        if pos + 12 + csize <= bytes.len() && psize <= LZ4_MAX_INPUT {
            let block = bytes.subrange(pos + 12, pos + 12 + csize);
            match lz4_unblock(block, psize) {
                Some(payload) => if payload.len() == psize {
                    match parse_payload(t, payload, rows as nat) {
                        Some(vals) => Some((vals, pos + 12 + csize)),
                        None => None,
                    }
                } else {
                    None
                },
                None => None,
            }
        } else {
            None
        }
    } else {
        None
    }
}

// ------------------------------------------------------------------
// The writer's side: an encoded payload parses back to its values.
// ------------------------------------------------------------------

pub proof fn lemma_fixed_payload_parses(t: TypeName, vals: Seq<ValV>)
    requires
        t != TypeName::DBString,
        forall|i: int| 0 <= i < vals.len() ==> (#[trigger] vals[i]).dtype() == t,
    ensures
        parse_payload(t, payload_of(t, vals), vals.len() as nat) == Some(vals),
{
    let f = fixed_fn(t);
    let p = payload_of(t, vals);
    assert(forall|j: int| 0 <= j < vals.len() ==> (#[trigger] f(vals[j])).len() == 8) by {
        lemma_auto_spec_u64_to_from_le_bytes();
    }
    lemma_concat_map_len(vals, f, 8);
    assert(p.len() == 8 * vals.len());
    let parsed = Seq::new(vals.len(), |i: int| fixed_val_at(t, p, i));
    assert forall|i: int| 0 <= i < vals.len() implies parsed[i] == vals[i] by {
        lemma_concat_map_index(vals, f, 8, i);
        assert(p.subrange(8 * i, 8 * i + 8) == f(vals[i]));
        lemma_auto_spec_u64_to_from_le_bytes();
        if t == TypeName::DBInt {
            let x = vals[i].as_int();
            assert(f(vals[i]) == i64_le(x));
            assert(spec_u64_from_le_bytes(spec_u64_to_le_bytes(x as u64)) == x as u64);
            crate::serialize::lemma_i64_u64_roundtrip(x);
            assert(vals[i] is I);
        } else {
            let x = vals[i].as_float();
            assert(spec_u64_from_le_bytes(spec_u64_to_le_bytes(x)) == x);
            assert(vals[i] is F);
        }
    }
    assert(parsed =~= vals);
}

pub proof fn lemma_strs_payload_parses_from(vals: Seq<ValV>, j: int)
    requires
        0 <= j <= vals.len(),
        chunkable(TypeName::DBString, vals),
    ensures
        parse_strs_rec(
            payload_of(TypeName::DBString, vals),
            4 * j,
            4 * vals.len() as int + concat_map(vals.take(j), bytes_fn()).len() as int,
            (vals.len() - j) as nat,
        ) == Some(vals.skip(j)),
    decreases vals.len() - j,
{
    broadcast use vstd::utf8::encode_utf8_valid_utf8;
    broadcast use vstd::utf8::encode_utf8_decode_utf8;

    let p = payload_of(TypeName::DBString, vals);
    let lf = len_fn();
    let bf = bytes_fn();
    let n = vals.len() as int;
    assert(forall|j0: int| 0 <= j0 < n ==> (#[trigger] lf(vals[j0])).len() == 4) by {
        lemma_auto_spec_u32_to_from_le_bytes();
    }
    lemma_concat_map_len(vals, lf, 4);
    assert(p.len() == 4 * n + concat_map(vals, bf).len());
    let bp = 4 * n + concat_map(vals.take(j), bf).len() as int;
    if j == n {
        assert(vals.take(j) =~= vals);
        assert(bp == p.len());
        assert(vals.skip(j) =~= Seq::<ValV>::empty());
    } else {
        // the length word of string j
        lemma_concat_map_index(vals, lf, 4, j);
        assert(concat_map(vals, lf).subrange(4 * j, 4 * j + 4) == lf(vals[j]));
        assert(p.subrange(4 * j, 4 * j + 4) =~= concat_map(vals, lf).subrange(4 * j, 4 * j + 4));
        let sj = vals[j].as_str_seq();
        let enc = encode_utf8(sj);
        lemma_auto_spec_u32_to_from_le_bytes();
        assert(enc.len() <= u32::MAX);
        assert(spec_u32_from_le_bytes(p.subrange(4 * j, 4 * j + 4)) == enc.len() as u32);
        // the bytes of string j sit at bp
        lemma_concat_map_split(vals, bf, j);
        lemma_concat_map_skip_unfold(vals, bf, j);
        assert(concat_map(vals, bf) == concat_map(vals.take(j), bf) + (bf(vals[j]) + concat_map(
            vals.skip(j + 1),
            bf,
        )));
        assert(bp + enc.len() <= p.len());
        assert(p.subrange(bp, bp + enc.len()) =~= enc);
        assert(valid_utf8(enc));
        assert(decode_utf8(enc) == sj);
        // the rest parses by induction
        lemma_strs_payload_parses_from(vals, j + 1);
        assert(concat_map(vals.take(j + 1), bf) =~= concat_map(vals.take(j), bf) + bf(vals[j])) by {
            lemma_concat_map_split(vals.take(j + 1), bf, j);
            assert(vals.take(j + 1).take(j) =~= vals.take(j));
            assert(vals.take(j + 1).skip(j) =~= seq![vals[j]]);
            assert(concat_map(seq![vals[j]], bf) =~= bf(vals[j])) by {
                assert(seq![vals[j]].drop_first() =~= Seq::<ValV>::empty());
                assert(concat_map(Seq::<ValV>::empty(), bf) =~= Seq::<u8>::empty());
                assert(seq![vals[j]][0] == vals[j]);
                assert(concat_map(seq![vals[j]], bf) == bf(vals[j]) + concat_map(
                    seq![vals[j]].drop_first(),
                    bf,
                ));
            }
        }
        assert(parse_strs_rec(p, 4 * (j + 1), bp + enc.len(), (n - j - 1) as nat) == Some(
            vals.skip(j + 1),
        ));
        assert(vals[j].dtype() == TypeName::DBString);
        assert(vals[j] is S);
        assert(ValV::S(sj) == vals[j]);
        assert(seq![vals[j]] + vals.skip(j + 1) =~= vals.skip(j));
        assert(parse_strs_rec(p, 4 * j, bp, (n - j) as nat) == Some(vals.skip(j)));
    }
}

/// The payload of any chunkable value sequence parses back to it exactly.
pub proof fn lemma_payload_parses(t: TypeName, vals: Seq<ValV>)
    requires
        chunkable(t, vals),
    ensures
        parse_payload(t, payload_of(t, vals), vals.len() as nat) == Some(vals),
{
    if t == TypeName::DBString {
        lemma_strs_payload_parses_from(vals, 0);
        assert(vals.take(0) =~= Seq::<ValV>::empty());
        assert(concat_map(vals.take(0), bytes_fn()).len() == 0);
        assert(vals.skip(0) =~= vals);
    } else {
        lemma_fixed_payload_parses(t, vals);
    }
}

pub proof fn lemma_concat_map_snoc<A>(s: Seq<A>, f: spec_fn(A) -> Seq<u8>, i: int)
    requires
        0 <= i < s.len(),
    ensures
        concat_map(s.take(i + 1), f) == concat_map(s.take(i), f) + f(s[i]),
{
    lemma_concat_map_split(s.take(i + 1), f, i);
    assert(s.take(i + 1).take(i) =~= s.take(i));
    assert(s.take(i + 1).skip(i) =~= seq![s[i]]);
    assert(concat_map(seq![s[i]], f) =~= f(s[i])) by {
        assert(seq![s[i]].drop_first() =~= Seq::<A>::empty());
        assert(concat_map(Seq::<A>::empty(), f) =~= Seq::<u8>::empty());
        assert(seq![s[i]][0] == s[i]);
        assert(concat_map(seq![s[i]], f) == f(s[i]) + concat_map(seq![s[i]].drop_first(), f));
    }
}

// ------------------------------------------------------------------
// Writer: one call appends one chunk for the storage's current contents.
// ------------------------------------------------------------------

/// Builds the uncompressed payload bytes for one chunk.
fn build_payload(col: &ColumnDataStorage) -> (r: Result<Vec<u8>, String>)
    ensures
        match r {
            Ok(p) => {
                &&& p@ == payload_of(col.dtype(), col@)
                &&& col.dtype() == TypeName::DBString ==> forall|i: int|
                    0 <= i < col@.len() ==> encode_utf8((#[trigger] col@[i]).as_str_seq()).len()
                        <= u32::MAX
            },
            Err(_) => col.dtype() == TypeName::DBString && exists|i: int|
                0 <= i < col@.len() && encode_utf8((#[trigger] col@[i]).as_str_seq()).len()
                    > u32::MAX,
        },
{
    match col {
        ColumnDataStorage::Ints(v) => {
            let ghost f = fixed_fn(TypeName::DBInt);
            let mut out: Vec<u8> = Vec::new();
            let mut i: usize = 0;
            while i < v.len()
                invariant
                    i <= v@.len(),
                    col@ == ints_view(v@),
                    col.dtype() == TypeName::DBInt,
                    out@ == concat_map(col@.take(i as int), f),
                    f == fixed_fn(TypeName::DBInt),
                decreases v@.len() - i,
            {
                proof {
                    lemma_concat_map_snoc(col@, f, i as int);
                    assert(f(col@[i as int]) == i64_le(v@[i as int]));
                }
                crate::serialize::i64_to_byte(v[i], &mut out);
                i += 1;
            }
            proof {
                assert(col@.take(v@.len() as int) =~= col@);
            }
            Ok(out)
        },
        ColumnDataStorage::Floats(v) => {
            let ghost f = fixed_fn(TypeName::DBFloat);
            let mut out: Vec<u8> = Vec::new();
            let mut i: usize = 0;
            while i < v.len()
                invariant
                    i <= v@.len(),
                    col@ == floats_view(v@),
                    col.dtype() == TypeName::DBFloat,
                    out@ == concat_map(col@.take(i as int), f),
                    f == fixed_fn(TypeName::DBFloat),
                decreases v@.len() - i,
            {
                proof {
                    lemma_concat_map_snoc(col@, f, i as int);
                    assert(f(col@[i as int]) == u64_le(v@[i as int]));
                }
                crate::serialize::u64_to_byte(v[i], &mut out);
                i += 1;
            }
            proof {
                assert(col@.take(v@.len() as int) =~= col@);
            }
            Ok(out)
        },
        ColumnDataStorage::Strings(v) => {
            let mut out: Vec<u8> = Vec::new();
            let mut i: usize = 0;
            while i < v.len()
                invariant
                    i <= v@.len(),
                    col@ == strings_view(v@),
                    col.dtype() == TypeName::DBString,
                    out@ == concat_map(col@.take(i as int), len_fn()),
                    forall|j: int|
                        0 <= j < i ==> encode_utf8((#[trigger] col@[j]).as_str_seq()).len()
                            <= u32::MAX,
                decreases v@.len() - i,
            {
                proof {
                    lemma_concat_map_snoc(col@, len_fn(), i as int);
                    assert(col@[i as int].as_str_seq() == v@[i as int]@);
                }
                let bs = v[i].as_str().as_bytes_vec();
                let blen = bs.len();
                proof {
                    assert(blen == encode_utf8(col@[i as int].as_str_seq()).len());
                }
                if blen > u32::MAX as usize {
                    return Err(String::from_str("string too long for a chunk"));
                }
                crate::serialize::u32_to_byte(blen as u32, &mut out);
                proof {
                    assert(len_fn()(col@[i as int]) == u32_le(blen as u32));
                }
                i += 1;
            }
            proof {
                assert(col@.take(v@.len() as int) =~= col@);
            }
            let mut i: usize = 0;
            while i < v.len()
                invariant
                    i <= v@.len(),
                    col@ == strings_view(v@),
                    col.dtype() == TypeName::DBString,
                    out@ == concat_map(col@, len_fn()) + concat_map(col@.take(i as int), bytes_fn()),
                    forall|j: int|
                        0 <= j < col@.len() ==> encode_utf8((#[trigger] col@[j]).as_str_seq()).len()
                            <= u32::MAX,
                decreases v@.len() - i,
            {
                proof {
                    lemma_concat_map_snoc(col@, bytes_fn(), i as int);
                    assert(col@[i as int].as_str_seq() == v@[i as int]@);
                }
                let mut bytes = v[i].as_str().as_bytes_vec();
                proof {
                    assert(bytes@ == bytes_fn()(col@[i as int]));
                }
                out.append(&mut bytes);
                i += 1;
            }
            proof {
                assert(col@.take(v@.len() as int) =~= col@);
            }
            Ok(out)
        },
    }
}

/// Writes one chunk per call into a growing in-memory buffer; the caller
/// hands the buffer to its storage medium afterwards.
pub struct ChunkWriter {
    dtype: TypeName,
    dest: Vec<u8>,
}

impl ChunkWriter {
    pub closed spec fn dtype_spec(&self) -> TypeName {
        self.dtype
    }

    pub closed spec fn buf_spec(&self) -> Seq<u8> {
        self.dest@
    }

    pub fn new(dtype: TypeName) -> (r: ChunkWriter)
        ensures
            r.dtype_spec() == dtype,
            r.buf_spec() =~= Seq::<u8>::empty(),
    {
        ChunkWriter { dtype, dest: Vec::new() }
    }

    pub fn dest(&self) -> (r: &Vec<u8>)
        ensures
            r@ == self.buf_spec(),
    {
        &self.dest
    }

    /// Hands out the encoded bytes written so far.
    pub fn into_inner(self) -> (r: Vec<u8>)
        ensures
            r@ == self.buf_spec(),
    {
        self.dest
    }

    /// Appends exactly one chunk holding the storage's current contents.
    /// The appended bytes parse back to exactly those values.
    pub fn write_col(&mut self, col: &ColumnDataStorage) -> (r: Result<(), String>)
        requires
            col.dtype() == old(self).dtype_spec(),
        ensures
            final(self).dtype_spec() == old(self).dtype_spec(),
            match r {
                Ok(()) => {
                    &&& chunkable(old(self).dtype_spec(), col@)
                    &&& final(self).buf_spec() == old(self).buf_spec() + chunk_le(
                        old(self).dtype_spec(),
                        col@,
                    )
                    &&& parse_chunk(
                        old(self).dtype_spec(),
                        final(self).buf_spec(),
                        old(self).buf_spec().len() as int,
                    ) == Some((col@, final(self).buf_spec().len() as int))
                },
                Err(_) => final(self).buf_spec() == old(self).buf_spec() && (!chunkable(
                    old(self).dtype_spec(),
                    col@,
                ) || lz4_block_of(payload_of(old(self).dtype_spec(), col@)).len() > u32::MAX),
            },
    {
        let ghost t = self.dtype;
        proof {
            col.lemma_well_typed();
        }
        let rows = col.len();
        if rows > u32::MAX as usize {
            return Err(String::from_str("too many rows for a chunk"));
        }
        let payload = match build_payload(col) {
            Ok(p) => p,
            Err(e) => {
                return Err(e);
            },
        };
        if payload.len() > LZ4_MAX_INPUT {
            return Err(String::from_str("chunk payload too large"));
        }
        let comp = match lz4_compress(&payload) {
            Ok(c) => c,
            Err(e) => {
                proof {
                    assert(false);
                }
                return Err(e);
            },
        };
        if comp.len() > u32::MAX as usize {
            return Err(String::from_str("compressed chunk too large"));
        }
        let ghost oldbuf = self.dest@;
        u32_to_byte(rows as u32, &mut self.dest);
        u32_to_byte(payload.len() as u32, &mut self.dest);
        u32_to_byte(comp.len() as u32, &mut self.dest);
        let ghost compv = comp@;
        let mut comp = comp;
        self.dest.append(&mut comp);
        proof {
            let vals = col@;
            let p = payload_of(t, vals);
            let b = lz4_block_of(p);
            assert(chunkable(t, vals));
            assert(self.dest@ =~= oldbuf + chunk_le(t, vals));
            let pos = oldbuf.len() as int;
            let bytes = self.dest@;
            lemma_auto_spec_u32_to_from_le_bytes();
            assert(bytes.subrange(pos, pos + 4) =~= u32_le(vals.len() as u32));
            assert(bytes.subrange(pos + 4, pos + 8) =~= u32_le(p.len() as u32));
            assert(bytes.subrange(pos + 8, pos + 12) =~= u32_le(b.len() as u32));
            assert(bytes.subrange(pos + 12, pos + 12 + b.len()) =~= b);
            lemma_payload_parses(t, vals);
            assert(parse_chunk(t, bytes, pos) == Some((vals, pos + 12 + b.len())));
        }
        Ok(())
    }
}

/// Makes a chunk writer for one column of the given type.
pub fn make_col_writer(t: TypeName) -> (r: ChunkWriter)
    ensures
        r.dtype_spec() == t,
        r.buf_spec() =~= Seq::<u8>::empty(),
{
    ChunkWriter::new(t)
}

// ------------------------------------------------------------------
// Reader: one call consumes one chunk and yields its values.
// ------------------------------------------------------------------

/// Decodes a payload of fixed-width elements.
fn decode_fixed(t: TypeName, payload: &Vec<u8>, rows: usize) -> (r: Result<
    ColumnDataStorage,
    String,
>)
    requires
        t != TypeName::DBString,
        rows <= u32::MAX,
    ensures
        match r {
            Ok(st) => st.dtype() == t && parse_payload(t, payload@, rows as nat) == Some(st@),
            Err(_) => parse_payload(t, payload@, rows as nat) is None,
        },
{
    if payload.len() as u64 != rows as u64 * 8 {
        return Err(String::from_str("chunk payload size mismatch"));
    }
    let ghost target = Seq::new(rows as nat, |i: int| fixed_val_at(t, payload@, i));
    match t {
        TypeName::DBInt => {
            let mut v: Vec<i64> = Vec::new();
            let mut i: usize = 0;
            let mut pos: usize = 0;
            while i < rows
                invariant
                    i <= rows,
                    pos == 8 * i,
                    payload@.len() == 8 * rows,
                    t == TypeName::DBInt,
                    target == Seq::new(rows as nat, |j: int| fixed_val_at(t, payload@, j)),
                    v@.len() == i,
                    forall|j: int| 0 <= j < i ==> ValV::I(#[trigger] v@[j]) == target[j],
                decreases rows - i,
            {
                let (x, p) = match crate::serialize::i64_from_byte(payload, pos) {
                    Some(xp) => xp,
                    None => {
                        proof {
                            assert(false);
                        }
                        return Err(String::from_str("unexpected end of payload"));
                    },
                };
                v.push(x);
                pos = p;
                i += 1;
            }
            let st = ColumnDataStorage::Ints(v);
            proof {
                assert(st@ =~= target);
            }
            Ok(st)
        },
        _ => {
            let mut v: Vec<u64> = Vec::new();
            let mut i: usize = 0;
            let mut pos: usize = 0;
            while i < rows
                invariant
                    i <= rows,
                    pos == 8 * i,
                    payload@.len() == 8 * rows,
                    t != TypeName::DBString && t != TypeName::DBInt,
                    target == Seq::new(rows as nat, |j: int| fixed_val_at(t, payload@, j)),
                    v@.len() == i,
                    forall|j: int| 0 <= j < i ==> ValV::F(#[trigger] v@[j]) == target[j],
                decreases rows - i,
            {
                let (x, p) = match crate::serialize::u64_from_byte(payload, pos) {
                    Some(xp) => xp,
                    None => {
                        proof {
                            assert(false);
                        }
                        return Err(String::from_str("unexpected end of payload"));
                    },
                };
                v.push(x);
                pos = p;
                i += 1;
            }
            let st = ColumnDataStorage::Floats(v);
            proof {
                assert(st@ =~= target);
            }
            Ok(st)
        },
    }
}

/// Decodes a string payload: the length words, then the UTF-8 bytes.
fn decode_strings(payload: &Vec<u8>, rows: usize) -> (r: Result<ColumnDataStorage, String>)
    requires
        rows <= u32::MAX,
    ensures
        match r {
            Ok(st) => st.dtype() == TypeName::DBString && parse_payload(
                TypeName::DBString,
                payload@,
                rows as nat,
            ) == Some(st@),
            Err(_) => parse_payload(TypeName::DBString, payload@, rows as nat) is None,
        },
{
    let ghost whole = parse_strs_rec(payload@, 0, 4 * rows as int, rows as nat);
    if rows > payload.len() / 4 {
        // the byte region would begin past the payload's end
        proof {
            assert(4 * rows as int > payload@.len());
            if 4 <= payload@.len() {
                let l = spec_u32_from_le_bytes(payload@.subrange(0, 4)) as int;
                assert(4 * rows as int + l > payload@.len());
            }
        }
        return Err(String::from_str("bad string chunk"));
    }
    let mut v: Vec<String> = Vec::new();
    let mut i: usize = 0;
    let mut li: usize = 0;
    let mut bp: usize = 4 * rows;
    while i < rows
        invariant
            i <= rows,
            li == 4 * i,
            4 * rows <= payload@.len(),
            bp <= payload@.len(),
            v@.len() == i,
            whole == parse_strs_rec(payload@, 0, 4 * rows as int, rows as nat),
            ({
                let rest = parse_strs_rec(payload@, li as int, bp as int, (rows - i) as nat);
                whole == (match rest {
                    Some(tail) => Some(strings_view(v@) + tail),
                    None => None::<Seq<ValV>>,
                })
            }),
        decreases rows - i,
    {
        let (l32, _p) = match crate::serialize::u32_from_byte(payload, li) {
            Some(xp) => xp,
            None => {
                return Err(String::from_str("bad string chunk"));
            },
        };
        let l = l32 as usize;
        if l > payload.len() - bp {
            return Err(String::from_str("bad string chunk"));
        }
        let seg = slice_to_vec(&payload.as_slice()[bp..bp + l]);
        let s = match crate::serialize::string_from_utf8(seg) {
            Some(s) => s,
            None => {
                return Err(String::from_str("bad string data"));
            },
        };
        proof {
            broadcast use vstd::utf8::encode_utf8_decode_utf8;
            broadcast use vstd::utf8::encode_utf8_valid_utf8;

            let segs = payload@.subrange(bp as int, bp + l);
            assert(encode_utf8(s@) == segs);
            assert(valid_utf8(segs));
            assert(decode_utf8(segs) == s@);
            let rest = parse_strs_rec(payload@, li as int, bp as int, (rows - i) as nat);
            assert(rest matches Some(tail) ==> tail == seq![ValV::S(s@)] + parse_strs_rec(
                payload@,
                li + 4,
                bp + l,
                (rows - i - 1) as nat,
            )->Some_0);
        }
        let ghost vpre = v@;
        v.push(s);
        proof {
            assert(strings_view(v@) =~= strings_view(vpre) + seq![ValV::S(s@)]);
            let rest2 = parse_strs_rec(payload@, li + 4, bp + l, (rows - i - 1) as nat);
            if rest2 is Some {
                assert(strings_view(vpre) + (seq![ValV::S(s@)] + rest2->Some_0) =~= strings_view(
                    v@,
                ) + rest2->Some_0);
            }
        }
        li = li + 4;
        bp = bp + l;
        i += 1;
    }
    if bp != payload.len() {
        return Err(String::from_str("bad string chunk"));
    }
    let st = ColumnDataStorage::Strings(v);
    proof {
        assert(parse_strs_rec(payload@, li as int, bp as int, 0) == Some(Seq::<ValV>::empty()));
        assert(strings_view(v@) + Seq::<ValV>::empty() =~= strings_view(v@));
        assert(whole == Some(st@));
    }
    Ok(st)
}

/// Reads chunks one by one from an in-memory byte image of a column file.
pub struct ChunkReader {
    dtype: TypeName,
    src: Vec<u8>,
    pos: usize,
}

impl ChunkReader {
    pub closed spec fn dtype_spec(&self) -> TypeName {
        self.dtype
    }

    pub closed spec fn src_spec(&self) -> Seq<u8> {
        self.src@
    }

    pub closed spec fn pos_spec(&self) -> int {
        self.pos as int
    }

    pub fn new(dtype: TypeName, src: Vec<u8>) -> (r: ChunkReader)
        ensures
            r.dtype_spec() == dtype,
            r.src_spec() == src@,
            r.pos_spec() == 0,
    {
        ChunkReader { dtype, src, pos: 0 }
    }

    /// How far into the byte image the reader has come.
    pub fn position(&self) -> (r: usize)
        ensures
            r == self.pos_spec(),
    {
        self.pos
    }

    /// Moves the reader back (or forward) to a known position.
    pub fn set_position(&mut self, p: usize)
        requires
            p <= old(self).src_spec().len(),
        ensures
            final(self).dtype_spec() == old(self).dtype_spec(),
            final(self).src_spec() == old(self).src_spec(),
            final(self).pos_spec() == p,
    {
        self.pos = p;
    }

    pub fn source_len(&self) -> (r: usize)
        ensures
            r == self.src_spec().len(),
    {
        self.src.len()
    }

    /// Reads one chunk into `data`, resizing it to the chunk's row count.
    /// Reports an error, and moves nothing, where no well-formed chunk
    /// starts at the current position; at the end of the bytes that error
    /// is the clean end-of-data.
    pub fn read_col(&mut self, data: &mut ColumnDataStorage) -> (r: Result<(), String>)
        requires
            old(data).dtype() == old(self).dtype_spec(),
        ensures
            final(self).dtype_spec() == old(self).dtype_spec(),
            final(self).src_spec() == old(self).src_spec(),
            final(data).dtype() == old(data).dtype(),
            match r {
                Ok(()) => {
                    &&& parse_chunk(
                        old(self).dtype_spec(),
                        old(self).src_spec(),
                        old(self).pos_spec(),
                    ) matches Some((vals, p)) && final(data)@ == vals && final(self).pos_spec()
                        == p
                },
                Err(_) => {
                    &&& parse_chunk(
                        old(self).dtype_spec(),
                        old(self).src_spec(),
                        old(self).pos_spec(),
                    ) is None
                    &&& final(data)@ == old(data)@
                    &&& final(self).pos_spec() == old(self).pos_spec()
                },
            },
    {
        let (rows32, p1) = match u32_from_byte(&self.src, self.pos) {
            Some(xp) => xp,
            None => {
                return Err(String::from_str("end of data"));
            },
        };
        let (psize32, p2) = match u32_from_byte(&self.src, p1) {
            Some(xp) => xp,
            None => {
                return Err(String::from_str("unexpected end of data"));
            },
        };
        let (csize32, p3) = match u32_from_byte(&self.src, p2) {
            Some(xp) => xp,
            None => {
                return Err(String::from_str("unexpected end of data"));
            },
        };
        let rows = rows32 as usize;
        let psize = psize32 as usize;
        let csize = csize32 as usize;
        if csize > self.src.len() - p3 {
            return Err(String::from_str("unexpected end of data"));
        }
        if psize > LZ4_MAX_INPUT {
            return Err(String::from_str("chunk payload too large"));
        }
        let block = slice_to_vec(&self.src.as_slice()[p3..p3 + csize]);
        let payload = match lz4_decompress(&block, psize) {
            Ok(p) => p,
            Err(e) => {
                return Err(e);
            },
        };
        if payload.len() != psize {
            return Err(String::from_str("chunk payload size mismatch"));
        }
        let st = if self.dtype == TypeName::DBString {
            match decode_strings(&payload, rows) {
                Ok(st) => st,
                Err(e) => {
                    return Err(e);
                },
            }
        } else {
            match decode_fixed(self.dtype, &payload, rows) {
                Ok(st) => st,
                Err(e) => {
                    return Err(e);
                },
            }
        };
        *data = st;
        self.pos = p3 + csize;
        Ok(())
    }
}

/// Makes a chunk reader over the byte image of one column file.
pub fn make_col_reader(t: TypeName, src: Vec<u8>) -> (r: ChunkReader)
    ensures
        r.dtype_spec() == t,
        r.src_spec() == src@,
        r.pos_spec() == 0,
{
    ChunkReader::new(t, src)
}

/// Round trip of the block codec: a written chunk, wherever it stands in
/// a byte stream, parses back to exactly the values it was written from.
/// The two facts about the LZ4 block are the compressor's contract, which
/// `write_col` establishes for every chunk it emits.
pub proof fn lemma_chunk_round_trip(t: TypeName, vals: Seq<ValV>, prefix: Seq<u8>, suffix: Seq<u8>)
    requires
        chunkable(t, vals),
        lz4_block_of(payload_of(t, vals)).len() <= u32::MAX,
        lz4_unblock(
            lz4_block_of(payload_of(t, vals)),
            payload_of(t, vals).len() as int,
        ) == Some(payload_of(t, vals)),
    ensures
        parse_chunk(t, prefix + chunk_le(t, vals) + suffix, prefix.len() as int) == Some(
            (vals, prefix.len() + chunk_le(t, vals).len() as int),
        ),
{
    let p = payload_of(t, vals);
    let b = lz4_block_of(p);
    let bytes = prefix + chunk_le(t, vals) + suffix;
    let pos = prefix.len() as int;
    lemma_auto_spec_u32_to_from_le_bytes();
    assert(bytes.subrange(pos, pos + 4) =~= u32_le(vals.len() as u32));
    assert(bytes.subrange(pos + 4, pos + 8) =~= u32_le(p.len() as u32));
    assert(bytes.subrange(pos + 8, pos + 12) =~= u32_le(b.len() as u32));
    assert(bytes.subrange(pos + 12, pos + 12 + b.len()) =~= b);
    lemma_payload_parses(t, vals);
    assert(parse_chunk(t, bytes, pos) == Some((vals, pos + 12 + b.len())));
}

/// A chunk parse is unaffected by bytes appended after it.
pub proof fn lemma_parse_chunk_prefix_stable(t: TypeName, b1: Seq<u8>, b2: Seq<u8>, pos: int)
    requires
        parse_chunk(t, b1, pos) is Some,
        b2.len() >= b1.len(),
        b2.take(b1.len() as int) == b1,
    ensures
        parse_chunk(t, b2, pos) == parse_chunk(t, b1, pos),
{
    assert(pos + 12 <= b1.len());
    assert(b2.subrange(pos, pos + 4) =~= b1.subrange(pos, pos + 4));
    assert(b2.subrange(pos + 4, pos + 8) =~= b1.subrange(pos + 4, pos + 8));
    assert(b2.subrange(pos + 8, pos + 12) =~= b1.subrange(pos + 8, pos + 12));
    let csize = spec_u32_from_le_bytes(b1.subrange(pos + 8, pos + 12)) as int;
    assert(pos + 12 + csize <= b1.len());
    assert(b2.subrange(pos + 12, pos + 12 + csize) =~= b1.subrange(pos + 12, pos + 12 + csize));
}

/// Byte image of a stream of chunks, one per block of values.
pub open spec fn chunks_le(t: TypeName, vss: Seq<Seq<ValV>>) -> Seq<u8>
    decreases vss.len(),
{
    if vss.len() == 0 {
        Seq::empty()
    } else {
        chunk_le(t, vss[0]) + chunks_le(t, vss.skip(1))
    }
}

/// Every block of the stream fits a chunk and survives the block codec.
pub open spec fn chunks_ok(t: TypeName, vss: Seq<Seq<ValV>>) -> bool {
    forall|j: int|
        0 <= j < vss.len() ==> {
            &&& chunkable(t, #[trigger] vss[j])
            &&& lz4_block_of(payload_of(t, vss[j])).len() <= u32::MAX
            &&& lz4_unblock(
                lz4_block_of(payload_of(t, vss[j])),
                payload_of(t, vss[j]).len() as int,
            ) == Some(payload_of(t, vss[j]))
        }
}

proof fn lemma_chunks_le_split(t: TypeName, vss: Seq<Seq<ValV>>, i: int)
    requires
        0 <= i <= vss.len(),
    ensures
        chunks_le(t, vss) == chunks_le(t, vss.take(i)) + chunks_le(t, vss.skip(i)),
    decreases i,
{
    if i == 0 {
        assert(vss.take(0) =~= Seq::<Seq<ValV>>::empty());
        assert(vss.skip(0) =~= vss);
        assert(chunks_le(t, vss.take(0)) + chunks_le(t, vss.skip(0)) =~= chunks_le(t, vss));
    } else {
        lemma_chunks_le_split(t, vss.skip(1), i - 1);
        assert(vss.skip(1).take(i - 1) =~= vss.take(i).skip(1));
        assert(vss.skip(1).skip(i - 1) =~= vss.skip(i));
        assert(vss.take(i)[0] == vss[0]);
        assert(chunks_le(t, vss) =~= chunks_le(t, vss.take(i)) + chunks_le(t, vss.skip(i)));
    }
}

/// A whole stream of chunks parses back block by block: at the end of the
/// first `i` chunk images of a concatenation, the parse yields exactly the
/// `i`-th block of values and lands at the end of the next chunk image.
pub proof fn lemma_chunk_stream_round_trip(t: TypeName, vss: Seq<Seq<ValV>>, i: int)
    requires
        chunks_ok(t, vss),
        0 <= i < vss.len(),
    ensures
        parse_chunk(t, chunks_le(t, vss), chunks_le(t, vss.take(i)).len() as int) == Some(
            (vss[i], chunks_le(t, vss.take(i + 1)).len() as int),
        ),
{
    let prefix = chunks_le(t, vss.take(i));
    let suffix = chunks_le(t, vss.skip(i + 1));
    lemma_chunks_le_split(t, vss, i);
    assert(vss.skip(i)[0] == vss[i]);
    assert(vss.skip(i).skip(1) =~= vss.skip(i + 1));
    assert(chunks_le(t, vss) =~= prefix + chunk_le(t, vss[i]) + suffix);
    lemma_chunk_round_trip(t, vss[i], prefix, suffix);
    lemma_chunks_le_split(t, vss.take(i + 1), i);
    assert(vss.take(i + 1).take(i) =~= vss.take(i));
    assert(vss.take(i + 1).skip(i) =~= seq![vss[i]]);
    assert(seq![vss[i]].skip(1) =~= Seq::<Seq<ValV>>::empty());
    assert(chunks_le(t, Seq::<Seq<ValV>>::empty()) =~= Seq::<u8>::empty());
    assert(seq![vss[i]][0] == vss[i]);
    assert(chunks_le(t, seq![vss[i]]) =~= chunk_le(t, vss[i]));
    assert(chunks_le(t, vss.take(i + 1)) =~= prefix + chunk_le(t, vss[i]));
}

} // verus!
