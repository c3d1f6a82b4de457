use vstd::prelude::*;
use crate::types::{TypeName, Val, ValV, default_val_spec};
use crate::serialize::{
    i64_le,
    u64_le,
    string_le,
    i64_to_byte,
    u64_to_byte,
    string_to_byte,
    i64_from_byte,
    u64_from_byte,
    string_from_byte,
    parse_string_at,
};

verus! {

use vstd::bytes::*;
use vstd::utf8::*;

/// One column's data: a typed vector behind a uniform, type-tagged face.
///
/// Float elements are IEEE-754 double bit patterns; the storage never
/// interprets them as numbers, it only stores, moves and orders them.
pub enum ColumnDataStorage {
    Ints(Vec<i64>),
    Floats(Vec<u64>),
    Strings(Vec<String>),
}

/// The uniform face of a vector of integers.
pub open spec fn ints_view(v: Seq<i64>) -> Seq<ValV> {
    Seq::new(v.len(), |i: int| ValV::I(v[i]))
}

/// The uniform face of a vector of float bit patterns.
pub open spec fn floats_view(v: Seq<u64>) -> Seq<ValV> {
    Seq::new(v.len(), |i: int| ValV::F(v[i]))
}

/// The uniform face of a vector of strings.
pub open spec fn strings_view(v: Seq<String>) -> Seq<ValV> {
    Seq::new(v.len(), |i: int| ValV::S(v[i]@))
}

impl View for ColumnDataStorage {
    type V = Seq<ValV>;

    open spec fn view(&self) -> Seq<ValV> {
        match self {
            ColumnDataStorage::Ints(v) => ints_view(v@),
            ColumnDataStorage::Floats(v) => floats_view(v@),
            ColumnDataStorage::Strings(v) => strings_view(v@),
        }
    }
}

/// What a sequence looks like after resizing to `n` with filler `fill`.
pub open spec fn resize_spec<A>(s: Seq<A>, n: int, fill: A) -> Seq<A> {
    if n <= s.len() {
        s.take(n)
    } else {
        s + Seq::new((n - s.len()) as nat, |i: int| fill)
    }
}

/// How many rows survive `fit_offset_limit(off, lim)` on a column of `n` rows.
pub open spec fn fit_len(n: int, off: int, lim: Option<usize>) -> int {
    let rest = n - off;
    match lim {
        Some(l) => if l <= rest {
            l as int
        } else {
            rest
        },
        None => rest,
    }
}

impl ColumnDataStorage {
    pub open spec fn dtype(&self) -> TypeName {
        match self {
            ColumnDataStorage::Ints(_) => TypeName::DBInt,
            ColumnDataStorage::Floats(_) => TypeName::DBFloat,
            ColumnDataStorage::Strings(_) => TypeName::DBString,
        }
    }

    /// Every element of a storage carries the storage's own type.
    pub proof fn lemma_well_typed(&self)
        ensures
            forall|i: int| 0 <= i < self@.len() ==> (#[trigger] self@[i]).dtype() == self.dtype(),
    {
    }

    pub fn new(t: TypeName) -> (r: ColumnDataStorage)
        ensures
            r.dtype() == t,
            r@ =~= Seq::<ValV>::empty(),
    {
        match t {
            TypeName::DBInt => ColumnDataStorage::Ints(Vec::new()),
            TypeName::DBFloat => ColumnDataStorage::Floats(Vec::new()),
            TypeName::DBString => ColumnDataStorage::Strings(Vec::new()),
        }
    }

    pub fn len(&self) -> (r: usize)
        ensures
            r == self@.len(),
    {
        match self {
            ColumnDataStorage::Ints(v) => v.len(),
            ColumnDataStorage::Floats(v) => v.len(),
            ColumnDataStorage::Strings(v) => v.len(),
        }
    }

    pub fn type_of(&self) -> (r: TypeName)
        ensures
            r == self.dtype(),
    {
        match self {
            ColumnDataStorage::Ints(_) => TypeName::DBInt,
            ColumnDataStorage::Floats(_) => TypeName::DBFloat,
            ColumnDataStorage::Strings(_) => TypeName::DBString,
        }
    }

    /// Appends one value of the storage's own type.
    pub fn push(&mut self, val: Val)
        requires
            old(self).dtype() == val@.dtype(),
        ensures
            final(self)@ =~= old(self)@ + seq![val@],
            final(self).dtype() == old(self).dtype(),
    {
        match (&mut *self, val) {
            (ColumnDataStorage::Ints(v), Val::Int(x)) => v.push(x),
            (ColumnDataStorage::Floats(v), Val::Float(x)) => v.push(x),
            (ColumnDataStorage::Strings(v), Val::Str(x)) => v.push(x),
            _ => {
                proof {
                    assert(false);
                }
            },
        }
    }

    /// Reads the value at one index, as an owned scalar.
    pub fn value_at(&self, i: usize) -> (r: Val)
        requires
            i < self@.len(),
        ensures
            r@ == self@[i as int],
    {
        match self {
            ColumnDataStorage::Ints(v) => Val::Int(v[i]),
            ColumnDataStorage::Floats(v) => Val::Float(v[i]),
            ColumnDataStorage::Strings(v) => Val::Str(v[i].clone()),
        }
    }

    /// Overwrites the value at one index.
    pub fn set_at(&mut self, i: usize, val: Val)
        requires
            i < old(self)@.len(),
            old(self).dtype() == val@.dtype(),
        ensures
            final(self)@ =~= old(self)@.update(i as int, val@),
            final(self).dtype() == old(self).dtype(),
    {
        match (&mut *self, val) {
            (ColumnDataStorage::Ints(v), Val::Int(x)) => {
                v[i] = x;
                proof {
                    assert(ints_view(v@) =~= old(self)@.update(i as int, ValV::I(x)));
                }
            },
            (ColumnDataStorage::Floats(v), Val::Float(x)) => {
                v[i] = x;
                proof {
                    assert(floats_view(v@) =~= old(self)@.update(i as int, ValV::F(x)));
                }
            },
            (ColumnDataStorage::Strings(v), Val::Str(x)) => {
                let ghost xv = x@;
                v[i] = x;
                proof {
                    assert(strings_view(v@) =~= old(self)@.update(i as int, ValV::S(xv)));
                }
            },
            _ => {
                proof {
                    assert(false);
                }
            },
        }
    }

    /// Grows or shrinks to exactly `size` rows; new rows get the type's
    /// default value (0, 0.0, "").
    pub fn resize(&mut self, size: usize)
        ensures
            final(self)@ =~= resize_spec(
                old(self)@,
                size as int,
                default_val_spec(old(self).dtype()),
            ),
            final(self).dtype() == old(self).dtype(),
    {
        match &mut *self {
            ColumnDataStorage::Ints(v) => {
                if size <= v.len() {
                    v.truncate(size);
                } else {
                    while v.len() < size
                        invariant
                            old(self)@.len() <= v@.len() <= size,
                            forall|i: int|
                                0 <= i < old(self)@.len() ==> old(self)@[i] == ValV::I(
                                    #[trigger] v@[i],
                                ),
                            forall|i: int|
                                old(self)@.len() <= i < v@.len() ==> #[trigger] v@[i] == 0i64,
                        decreases size - v.len(),
                    {
                        v.push(0);
                    }
                }
            },
            ColumnDataStorage::Floats(v) => {
                if size <= v.len() {
                    v.truncate(size);
                } else {
                    while v.len() < size
                        invariant
                            old(self)@.len() <= v@.len() <= size,
                            forall|i: int|
                                0 <= i < old(self)@.len() ==> old(self)@[i] == ValV::F(
                                    #[trigger] v@[i],
                                ),
                            forall|i: int|
                                old(self)@.len() <= i < v@.len() ==> #[trigger] v@[i] == 0u64,
                        decreases size - v.len(),
                    {
                        v.push(0);
                    }
                }
            },
            ColumnDataStorage::Strings(v) => {
                if size <= v.len() {
                    v.truncate(size);
                } else {
                    while v.len() < size
                        invariant
                            old(self)@.len() <= v@.len() <= size,
                            forall|i: int|
                                0 <= i < old(self)@.len() ==> old(self)@[i] == ValV::S(
                                    (#[trigger] v@[i])@,
                                ),
                            forall|i: int|
                                old(self)@.len() <= i < v@.len() ==> (#[trigger] v@[i])@ =~= Seq::<
                                    char,
                                >::empty(),
                        decreases size - v.len(),
                    {
                        v.push(String::new());
                    }
                }
            },
        }
        proof {
            assert(self@ =~= resize_spec(
                old(self)@,
                size as int,
                default_val_spec(old(self).dtype()),
            ));
        }
    }
}

// ------------------------------------------------------------------
// Spec-level companions: filtering, ordering, single-value bytes.
// ------------------------------------------------------------------

/// The elements of `x` standing where the parallel filter holds a 1.
pub open spec fn filtered_seq(x: Seq<ValV>, f: Seq<ValV>) -> Seq<ValV>
    decreases x.len(),
{
    if x.len() == 0 || f.len() == 0 {
        Seq::empty()
    } else {
        (if f[0] == ValV::I(1) {
            seq![x[0]]
        } else {
            Seq::empty()
        }) + filtered_seq(x.drop_first(), f.drop_first())
    }
}

/// How many elements of a filter column equal 1.
pub open spec fn ones(f: Seq<ValV>) -> int
    decreases f.len(),
{
    if f.len() == 0 {
        0
    } else {
        (if f[0] == ValV::I(1) {
            1int
        } else {
            0int
        }) + ones(f.drop_first())
    }
}

pub proof fn lemma_ones_bound(f: Seq<ValV>)
    ensures
        0 <= ones(f) <= f.len(),
    decreases f.len(),
{
    if f.len() > 0 {
        lemma_ones_bound(f.drop_first());
    }
}

pub proof fn lemma_ones_snoc(f: Seq<ValV>)
    requires
        f.len() > 0,
    ensures
        ones(f) == ones(f.drop_last()) + if f.last() == ValV::I(1) {
            1int
        } else {
            0int
        },
    decreases f.len(),
{
    if f.len() == 1 {
        assert(f.drop_last() =~= Seq::empty());
        assert(f.drop_first() =~= Seq::empty());
        assert(f.last() == f[0]);
        assert(ones(f) == (if f[0] == ValV::I(1) {
            1int
        } else {
            0int
        }) + ones(f.drop_first()));
    } else {
        assert(ones(f) == (if f[0] == ValV::I(1) {
            1int
        } else {
            0int
        }) + ones(f.drop_first()));
        lemma_ones_snoc(f.drop_first());
        assert(f.drop_first().drop_last() =~= f.drop_last().drop_first());
        assert(f.drop_first().last() == f.last());
        assert(f.drop_last().len() > 0);
        assert(f.drop_last()[0] == f[0]);
        assert(ones(f.drop_last()) == (if f.drop_last()[0] == ValV::I(1) {
            1int
        } else {
            0int
        }) + ones(f.drop_last().drop_first()));
    }
}

pub proof fn lemma_filtered_snoc(x: Seq<ValV>, f: Seq<ValV>)
    requires
        x.len() == f.len(),
        x.len() > 0,
    ensures
        filtered_seq(x, f) == filtered_seq(x.drop_last(), f.drop_last()) + (if f.last() == ValV::I(
            1,
        ) {
            seq![x.last()]
        } else {
            Seq::<ValV>::empty()
        }),
    decreases x.len(),
{
    if x.len() == 1 {
        assert(x.drop_last() =~= Seq::empty());
        assert(f.drop_last() =~= Seq::empty());
        assert(filtered_seq(x, f) =~= filtered_seq(x.drop_last(), f.drop_last()) + (if f.last()
            == ValV::I(1) {
            seq![x.last()]
        } else {
            Seq::<ValV>::empty()
        }));
    } else {
        lemma_filtered_snoc(x.drop_first(), f.drop_first());
        assert(x.drop_first().drop_last() =~= x.drop_last().drop_first());
        assert(f.drop_first().drop_last() =~= f.drop_last().drop_first());
        assert(x.drop_first().last() == x.last());
        assert(f.drop_first().last() == f.last());
        let head: Seq<ValV> = if f[0] == ValV::I(1) {
            seq![x[0]]
        } else {
            Seq::empty()
        };
        let tail: Seq<ValV> = if f.last() == ValV::I(1) {
            seq![x.last()]
        } else {
            Seq::empty()
        };
        assert(filtered_seq(x, f) == head + filtered_seq(x.drop_first(), f.drop_first()));
        assert(x.drop_last().len() > 0);
        assert(x.drop_last()[0] == x[0]);
        assert(f.drop_last()[0] == f[0]);
        assert(filtered_seq(x.drop_last(), f.drop_last()) == head + filtered_seq(
            x.drop_last().drop_first(),
            f.drop_last().drop_first(),
        ));
        assert(filtered_seq(x.drop_first(), f.drop_first()) == filtered_seq(
            x.drop_last().drop_first(),
            f.drop_last().drop_first(),
        ) + tail);
        assert(filtered_seq(x, f) =~= filtered_seq(x.drop_last(), f.drop_last()) + tail);
    }
}

/// The filtered part is never longer than the count of 1s allows.
pub proof fn lemma_filtered_len(x: Seq<ValV>, f: Seq<ValV>)
    requires
        x.len() == f.len(),
    ensures
        filtered_seq(x, f).len() == ones(f),
    decreases x.len(),
{
    if x.len() > 0 {
        lemma_filtered_len(x.drop_first(), f.drop_first());
    }
}

/// Whether a double-precision bit pattern encodes a NaN: an all-ones
/// exponent with a non-zero mantissa.
pub open spec fn f64_is_nan(bits: u64) -> bool {
    (bits >> 52) & 0x7FF == 0x7FF && (bits & 0xF_FFFF_FFFF_FFFF) != 0
}

/// The key under which float bit patterns are totally ordered: negative
/// values (sign bit set) come first, in increasing numeric order, then the
/// non-negative ones; every NaN pattern shares the one maximal key, so
/// NaN compares equal to NaN and sorts after everything else, including
/// both infinities. Two zeros keep their signs: -0.0 sorts just before
/// +0.0.
pub open spec fn f64_total_key(bits: u64) -> u64 {
    if f64_is_nan(bits) {
        0xFFFF_FFFF_FFFF_FFFF
    } else if bits & 0x8000_0000_0000_0000 != 0 {
        !bits
    } else {
        bits | 0x8000_0000_0000_0000
    }
}

/// Every value that is not a NaN sorts strictly before every NaN.
pub proof fn lemma_f64_nan_last(a: u64, b: u64)
    requires
        !f64_is_nan(a),
        f64_is_nan(b),
    ensures
        f64_total_key(a) < f64_total_key(b),
{
    assert(((a >> 52) & 0x7FF != 0x7FF || (a & 0xF_FFFF_FFFF_FFFF) == 0) ==> (if a
        & 0x8000_0000_0000_0000 != 0 {
        !a
    } else {
        a | 0x8000_0000_0000_0000
    }) < 0xFFFF_FFFF_FFFF_FFFFu64) by (bit_vector);
}

pub open spec fn int_cmp(a: int, b: int) -> core::cmp::Ordering {
    if a < b {
        core::cmp::Ordering::Less
    } else if a == b {
        core::cmp::Ordering::Equal
    } else {
        core::cmp::Ordering::Greater
    }
}

/// Lexicographic order of two character sequences, by code point.
pub open spec fn chars_cmp(a: Seq<char>, b: Seq<char>) -> core::cmp::Ordering
    decreases a.len(),
{
    if a.len() == 0 && b.len() == 0 {
        core::cmp::Ordering::Equal
    } else if a.len() == 0 {
        core::cmp::Ordering::Less
    } else if b.len() == 0 {
        core::cmp::Ordering::Greater
    } else if (a[0] as u32) < (b[0] as u32) {
        core::cmp::Ordering::Less
    } else if (a[0] as u32) > (b[0] as u32) {
        core::cmp::Ordering::Greater
    } else {
        chars_cmp(a.drop_first(), b.drop_first())
    }
}

/// The natural total order of two values of one type: numeric for Int,
/// the total-order key for Float, lexicographic for String.
pub open spec fn val_cmp(a: ValV, b: ValV) -> core::cmp::Ordering {
    match (a, b) {
        (ValV::I(x), ValV::I(y)) => int_cmp(x as int, y as int),
        (ValV::F(x), ValV::F(y)) => int_cmp(f64_total_key(x) as int, f64_total_key(y) as int),
        (ValV::S(x), ValV::S(y)) => chars_cmp(x, y),
        _ => core::cmp::Ordering::Equal,
    }
}

/// The byte image of one value, as `pack_value_to` writes it.
pub open spec fn val_le_bytes(v: ValV) -> Seq<u8> {
    match v {
        ValV::I(x) => i64_le(x),
        ValV::F(x) => u64_le(x),
        ValV::S(s) => string_le(s),
    }
}

/// What parsing one value of type `t` at `pos` yields, if anything.
pub open spec fn parse_val_at(t: TypeName, bytes: Seq<u8>, pos: int) -> Option<(ValV, int)> {
    match t {
        TypeName::DBInt => if pos + 8 <= bytes.len() {
            Some(
                (
                    ValV::I(
                        vstd::bytes::spec_u64_from_le_bytes(bytes.subrange(pos, pos + 8)) as i64,
                    ),
                    pos + 8,
                ),
            )
        } else {
            None
        },
        TypeName::DBFloat => if pos + 8 <= bytes.len() {
            Some(
                (ValV::F(vstd::bytes::spec_u64_from_le_bytes(bytes.subrange(pos, pos + 8))), pos + 8),
            )
        } else {
            None
        },
        TypeName::DBString => match parse_string_at(bytes, pos) {
            Some((s, p)) => Some((ValV::S(s), p)),
            None => None,
        },
    }
}

/// Comparing two character sequences with an equal prefix removed changes nothing.
pub proof fn lemma_chars_cmp_skip(a: Seq<char>, b: Seq<char>, i: int)
    requires
        0 <= i <= a.len(),
        i <= b.len(),
        forall|j: int| 0 <= j < i ==> a[j] == b[j],
    ensures
        chars_cmp(a, b) == chars_cmp(a.skip(i), b.skip(i)),
    decreases i,
{
    if i == 0 {
        assert(a.skip(0) =~= a);
        assert(b.skip(0) =~= b);
    } else {
        assert(a.len() > 0 && b.len() > 0);
        assert(a[0] == b[0]);
        assert(chars_cmp(a, b) == chars_cmp(a.drop_first(), b.drop_first()));
        assert forall|j: int| 0 <= j < i - 1 implies a.drop_first()[j] == b.drop_first()[j] by {
            assert(a[j + 1] == b[j + 1]);
        }
        lemma_chars_cmp_skip(a.drop_first(), b.drop_first(), i - 1);
        assert(a.drop_first().skip(i - 1) =~= a.skip(i));
        assert(b.drop_first().skip(i - 1) =~= b.skip(i));
    }
}

impl ColumnDataStorage {
    /// Drops the first `offset` rows, then keeps at most `limit` of the rest,
    /// in place.
    pub fn fit_offset_limit(&mut self, offset: usize, limit: Option<usize>)
        requires
            offset <= old(self)@.len(),
        ensures
            final(self)@ =~= old(self)@.subrange(
                offset as int,
                offset + fit_len(old(self)@.len() as int, offset as int, limit),
            ),
            final(self).dtype() == old(self).dtype(),
    {
        let n = self.len();
        let size_with_offset = n - offset;
        let res_size: usize = match limit {
            Some(l) => if l <= size_with_offset {
                l
            } else {
                size_with_offset
            },
            None => size_with_offset,
        };
        match &mut *self {
            ColumnDataStorage::Ints(v) => {
                let vlen = v.len();
                let mut i: usize = 0;
                while i < res_size
                    invariant
                        i <= res_size,
                        offset + res_size <= vlen,
                        vlen == v@.len(),
                        v@.len() == old(self)@.len(),
                        forall|j: int|
                            0 <= j < i ==> old(self)@[offset + j] == ValV::I(#[trigger] v@[j]),
                        forall|j: int|
                            i <= j < v@.len() ==> old(self)@[j] == ValV::I(#[trigger] v@[j]),
                    decreases res_size - i,
                {
                    let x = v[offset + i];
                    v[i] = x;
                    i += 1;
                }
                v.truncate(res_size);
            },
            ColumnDataStorage::Floats(v) => {
                let vlen = v.len();
                let mut i: usize = 0;
                while i < res_size
                    invariant
                        i <= res_size,
                        offset + res_size <= vlen,
                        vlen == v@.len(),
                        v@.len() == old(self)@.len(),
                        forall|j: int|
                            0 <= j < i ==> old(self)@[offset + j] == ValV::F(#[trigger] v@[j]),
                        forall|j: int|
                            i <= j < v@.len() ==> old(self)@[j] == ValV::F(#[trigger] v@[j]),
                    decreases res_size - i,
                {
                    let x = v[offset + i];
                    v[i] = x;
                    i += 1;
                }
                v.truncate(res_size);
            },
            ColumnDataStorage::Strings(v) => {
                let vlen = v.len();
                let mut i: usize = 0;
                while i < res_size
                    invariant
                        i <= res_size,
                        offset + res_size <= vlen,
                        vlen == v@.len(),
                        v@.len() == old(self)@.len(),
                        forall|j: int|
                            0 <= j < i ==> old(self)@[offset + j] == ValV::S((#[trigger] v@[j])@),
                        forall|j: int|
                            i <= j < v@.len() ==> old(self)@[j] == ValV::S((#[trigger] v@[j])@),
                    decreases res_size - i,
                {
                    let x = v[offset + i].clone();
                    v[i] = x;
                    i += 1;
                }
                v.truncate(res_size);
            },
        }
        proof {
            assert(self@ =~= old(self)@.subrange(
                offset as int,
                offset + fit_len(old(self)@.len() as int, offset as int, limit),
            ));
        }
    }

    /// Copies `min(self.len, dest.len - offset)` rows from the start of self
    /// into `dest` beginning at `offset`.
    pub fn copy_to(&self, dest: &mut ColumnDataStorage, offset: usize)
        requires
            self.dtype() == old(dest).dtype(),
            offset <= old(dest)@.len(),
        ensures
            ({
                let m = if self@.len() <= old(dest)@.len() - offset {
                    self@.len() as int
                } else {
                    old(dest)@.len() - offset
                };
                final(dest)@ =~= old(dest)@.take(offset as int) + self@.take(m) + old(dest)@.skip(
                    offset + m,
                )
            }),
            final(dest).dtype() == old(dest).dtype(),
    {
        let n = self.len();
        let avail = dest.len() - offset;
        let m: usize = if n <= avail {
            n
        } else {
            avail
        };
        match (self, &mut *dest) {
            (ColumnDataStorage::Ints(s), ColumnDataStorage::Ints(d)) => {
                let dlen = d.len();
                let mut i: usize = 0;
                while i < m
                    invariant
                        i <= m,
                        offset + m <= dlen,
                        dlen == d@.len(),
                        m <= s@.len(),
                        d@.len() == old(dest)@.len(),
                        self@.len() == s@.len(),
                        forall|j: int| 0 <= j < s@.len() ==> self@[j] == ValV::I(#[trigger] s@[j]),
                        forall|k: int|
                            offset <= k < offset + i ==> #[trigger] d@[k] == s@[k - offset],
                        forall|k: int|
                            (0 <= k < offset || offset + i <= k < d@.len()) ==> old(dest)@[k]
                                == ValV::I(#[trigger] d@[k]),
                    decreases m - i,
                {
                    let x = s[i];
                    d[offset + i] = x;
                    i += 1;
                }
            },
            (ColumnDataStorage::Floats(s), ColumnDataStorage::Floats(d)) => {
                let dlen = d.len();
                let mut i: usize = 0;
                while i < m
                    invariant
                        i <= m,
                        offset + m <= dlen,
                        dlen == d@.len(),
                        m <= s@.len(),
                        d@.len() == old(dest)@.len(),
                        self@.len() == s@.len(),
                        forall|j: int| 0 <= j < s@.len() ==> self@[j] == ValV::F(#[trigger] s@[j]),
                        forall|k: int|
                            offset <= k < offset + i ==> #[trigger] d@[k] == s@[k - offset],
                        forall|k: int|
                            (0 <= k < offset || offset + i <= k < d@.len()) ==> old(dest)@[k]
                                == ValV::F(#[trigger] d@[k]),
                    decreases m - i,
                {
                    let x = s[i];
                    d[offset + i] = x;
                    i += 1;
                }
            },
            (ColumnDataStorage::Strings(s), ColumnDataStorage::Strings(d)) => {
                let dlen = d.len();
                let mut i: usize = 0;
                while i < m
                    invariant
                        i <= m,
                        offset + m <= dlen,
                        dlen == d@.len(),
                        m <= s@.len(),
                        d@.len() == old(dest)@.len(),
                        self@.len() == s@.len(),
                        forall|j: int|
                            0 <= j < s@.len() ==> self@[j] == ValV::S((#[trigger] s@[j])@),
                        forall|k: int|
                            offset <= k < offset + i ==> (#[trigger] d@[k])@ == s@[k - offset]@,
                        forall|k: int|
                            (0 <= k < offset || offset + i <= k < d@.len()) ==> old(dest)@[k]
                                == ValV::S((#[trigger] d@[k])@),
                    decreases m - i,
                {
                    let x = s[i].clone();
                    d[offset + i] = x;
                    i += 1;
                }
            },
            _ => {
                proof {
                    assert(false);
                }
            },
        }
        proof {
            let m = if self@.len() <= old(dest)@.len() - offset {
                self@.len() as int
            } else {
                old(dest)@.len() - offset
            };
            let target = old(dest)@.take(offset as int) + self@.take(m) + old(dest)@.skip(
                offset + m,
            );
            assert(dest@.len() == target.len());
            assert forall|k: int| 0 <= k < dest@.len() implies dest@[k] == target[k] by {
                if k < offset {
                    assert(target[k] == old(dest)@[k]);
                } else if k < offset + m {
                    assert(target[k] == self@[k - offset]);
                } else {
                    assert(target[k] == old(dest)@[k]);
                }
            }
            assert(dest@ =~= target);
        }
    }
}

/// The count of 1s in a prefix never exceeds the count in the whole filter.
pub proof fn lemma_ones_split(f: Seq<ValV>, i: int)
    requires
        0 <= i <= f.len(),
    ensures
        ones(f) == ones(f.take(i)) + ones(f.skip(i)),
    decreases i,
{
    if i == 0 {
        assert(f.take(0) =~= Seq::empty());
        assert(f.skip(0) =~= f);
    } else {
        assert(f.len() > 0);
        lemma_ones_split(f.drop_first(), i - 1);
        assert(f.drop_first().take(i - 1) =~= f.take(i).drop_first());
        assert(f.drop_first().skip(i - 1) =~= f.skip(i));
        assert(f.take(i).len() > 0);
        assert(f.take(i)[0] == f[0]);
        assert(ones(f.take(i)) == (if f.take(i)[0] == ValV::I(1) {
            1int
        } else {
            0int
        }) + ones(f.take(i).drop_first()));
    }
}

impl ColumnDataStorage {
    /// Copies the rows of self standing where `filter` holds a 1 into
    /// consecutive slots of `dest`, beginning at `offset`.
    pub fn copy_filtered_to(
        &self,
        dest: &mut ColumnDataStorage,
        offset: usize,
        filter: &ColumnDataStorage,
    )
        requires
            self.dtype() == old(dest).dtype(),
            filter.dtype() == TypeName::DBInt,
            filter@.len() == self@.len(),
            offset + ones(filter@) <= old(dest)@.len(),
        ensures
            final(dest)@ =~= old(dest)@.take(offset as int) + filtered_seq(self@, filter@) + old(
                dest,
            )@.skip(offset + ones(filter@)),
            final(dest).dtype() == old(dest).dtype(),
    {
        proof {
            lemma_ones_bound(filter@);
            lemma_filtered_len(self@, filter@);
        }
        let n = self.len();
        let dlen = dest.len();
        match (self, &mut *dest, filter) {
            (
                ColumnDataStorage::Ints(s),
                ColumnDataStorage::Ints(d),
                ColumnDataStorage::Ints(fv),
            ) => {
                let mut i: usize = 0;
                let mut out: usize = offset;
                while i < n
                    invariant
                        i <= n,
                        n == s@.len(),
                        n == fv@.len(),
                        self@ == ints_view(s@),
                        filter@ == ints_view(fv@),
                        d@.len() == dlen,
                        dlen == old(dest)@.len(),
                        out == offset + ones(filter@.take(i as int)),
                        offset + ones(filter@) <= dlen,
                        ints_view(d@) =~= old(dest)@.take(offset as int) + filtered_seq(
                            self@.take(i as int),
                            filter@.take(i as int),
                        ) + old(dest)@.skip(offset + ones(filter@.take(i as int))),
                    decreases n - i,
                {
                    proof {
                        lemma_ones_split(filter@, i as int);
                        lemma_ones_bound(filter@.skip(i as int));
                        lemma_ones_snoc(filter@.take(i + 1));
                        assert(filter@.take(i + 1).drop_last() =~= filter@.take(i as int));
                        assert(filter@.take(i + 1).last() == filter@[i as int]);
                        lemma_filtered_snoc(self@.take(i + 1), filter@.take(i + 1));
                        assert(self@.take(i + 1).drop_last() =~= self@.take(i as int));
                        lemma_ones_split(filter@, i + 1);
                        lemma_ones_bound(filter@.skip(i + 1));
                        lemma_filtered_len(self@.take(i as int), filter@.take(i as int));
                        lemma_ones_bound(filter@.take(i as int));
                    }
                    if fv[i] == 1 {
                        let ghost dpre = d@;
                        let ghost outg = out as int;
                        let x = s[i];
                        d[out] = x;
                        proof {
                            let xi = self@[i as int];
                            let oldt = old(dest)@.take(offset as int) + filtered_seq(
                                self@.take(i as int),
                                filter@.take(i as int),
                            ) + old(dest)@.skip(offset + ones(filter@.take(i as int)));
                            assert(ints_view(dpre) == oldt);
                            assert(filtered_seq(self@.take(i + 1), filter@.take(i + 1))
                                == filtered_seq(self@.take(i as int), filter@.take(i as int))
                                + seq![xi]);
                            assert(ones(filter@.take(i + 1)) == ones(filter@.take(i as int)) + 1);
                            let lhs = ints_view(d@);
                            let rhs = old(dest)@.take(offset as int) + filtered_seq(
                                self@.take(i + 1),
                                filter@.take(i + 1),
                            ) + old(dest)@.skip(offset + ones(filter@.take(i + 1)));
                            assert(lhs.len() == rhs.len());
                            assert forall|k: int| 0 <= k < lhs.len() implies lhs[k] == rhs[k] by {
                                if k == outg {
                                    assert(lhs[k] == xi);
                                    assert(rhs[k] == xi);
                                } else {
                                    assert(lhs[k] == ints_view(dpre)[k]);
                                    if k < outg {
                                        assert(rhs[k] == oldt[k]);
                                    } else {
                                        assert(rhs[k] == old(dest)@[k]);
                                        assert(oldt[k] == old(dest)@[k]);
                                    }
                                }
                            }
                            assert(lhs =~= rhs);
                        }
                        out += 1;
                    } else {
                        proof {
                            assert(filter@[i as int] != ValV::I(1));
                            assert(ints_view(d@) =~= old(dest)@.take(offset as int) + filtered_seq(
                                self@.take(i + 1),
                                filter@.take(i + 1),
                            ) + old(dest)@.skip(offset + ones(filter@.take(i + 1))));
                        }
                    }
                    i += 1;
                }
                proof {
                    assert(self@.take(n as int) =~= self@);
                    assert(filter@.take(n as int) =~= filter@);
                }
            },
            (
                ColumnDataStorage::Floats(s),
                ColumnDataStorage::Floats(d),
                ColumnDataStorage::Ints(fv),
            ) => {
                let mut i: usize = 0;
                let mut out: usize = offset;
                while i < n
                    invariant
                        i <= n,
                        n == s@.len(),
                        n == fv@.len(),
                        self@ == floats_view(s@),
                        filter@ == ints_view(fv@),
                        d@.len() == dlen,
                        dlen == old(dest)@.len(),
                        out == offset + ones(filter@.take(i as int)),
                        offset + ones(filter@) <= dlen,
                        floats_view(d@) =~= old(dest)@.take(offset as int) + filtered_seq(
                            self@.take(i as int),
                            filter@.take(i as int),
                        ) + old(dest)@.skip(offset + ones(filter@.take(i as int))),
                    decreases n - i,
                {
                    proof {
                        lemma_ones_split(filter@, i as int);
                        lemma_ones_bound(filter@.skip(i as int));
                        lemma_ones_snoc(filter@.take(i + 1));
                        assert(filter@.take(i + 1).drop_last() =~= filter@.take(i as int));
                        assert(filter@.take(i + 1).last() == filter@[i as int]);
                        lemma_filtered_snoc(self@.take(i + 1), filter@.take(i + 1));
                        assert(self@.take(i + 1).drop_last() =~= self@.take(i as int));
                        lemma_ones_split(filter@, i + 1);
                        lemma_ones_bound(filter@.skip(i + 1));
                        lemma_filtered_len(self@.take(i as int), filter@.take(i as int));
                        lemma_ones_bound(filter@.take(i as int));
                    }
                    if fv[i] == 1 {
                        let ghost dpre = d@;
                        let ghost outg = out as int;
                        let x = s[i];
                        d[out] = x;
                        proof {
                            let xi = self@[i as int];
                            let oldt = old(dest)@.take(offset as int) + filtered_seq(
                                self@.take(i as int),
                                filter@.take(i as int),
                            ) + old(dest)@.skip(offset + ones(filter@.take(i as int)));
                            assert(floats_view(dpre) == oldt);
                            assert(filtered_seq(self@.take(i + 1), filter@.take(i + 1))
                                == filtered_seq(self@.take(i as int), filter@.take(i as int))
                                + seq![xi]);
                            assert(ones(filter@.take(i + 1)) == ones(filter@.take(i as int)) + 1);
                            let lhs = floats_view(d@);
                            let rhs = old(dest)@.take(offset as int) + filtered_seq(
                                self@.take(i + 1),
                                filter@.take(i + 1),
                            ) + old(dest)@.skip(offset + ones(filter@.take(i + 1)));
                            assert(lhs.len() == rhs.len());
                            assert forall|k: int| 0 <= k < lhs.len() implies lhs[k] == rhs[k] by {
                                if k == outg {
                                    assert(lhs[k] == xi);
                                    assert(rhs[k] == xi);
                                } else {
                                    assert(lhs[k] == floats_view(dpre)[k]);
                                    if k < outg {
                                        assert(rhs[k] == oldt[k]);
                                    } else {
                                        assert(rhs[k] == old(dest)@[k]);
                                        assert(oldt[k] == old(dest)@[k]);
                                    }
                                }
                            }
                            assert(lhs =~= rhs);
                        }
                        out += 1;
                    } else {
                        proof {
                            assert(filter@[i as int] != ValV::I(1));
                            assert(floats_view(d@) =~= old(dest)@.take(offset as int)
                                + filtered_seq(self@.take(i + 1), filter@.take(i + 1)) + old(
                                dest,
                            )@.skip(offset + ones(filter@.take(i + 1))));
                        }
                    }
                    i += 1;
                }
                proof {
                    assert(self@.take(n as int) =~= self@);
                    assert(filter@.take(n as int) =~= filter@);
                }
            },
            (
                ColumnDataStorage::Strings(s),
                ColumnDataStorage::Strings(d),
                ColumnDataStorage::Ints(fv),
            ) => {
                let mut i: usize = 0;
                let mut out: usize = offset;
                while i < n
                    invariant
                        i <= n,
                        n == s@.len(),
                        n == fv@.len(),
                        self@ == strings_view(s@),
                        filter@ == ints_view(fv@),
                        d@.len() == dlen,
                        dlen == old(dest)@.len(),
                        out == offset + ones(filter@.take(i as int)),
                        offset + ones(filter@) <= dlen,
                        strings_view(d@) =~= old(dest)@.take(offset as int) + filtered_seq(
                            self@.take(i as int),
                            filter@.take(i as int),
                        ) + old(dest)@.skip(offset + ones(filter@.take(i as int))),
                    decreases n - i,
                {
                    proof {
                        lemma_ones_split(filter@, i as int);
                        lemma_ones_bound(filter@.skip(i as int));
                        lemma_ones_snoc(filter@.take(i + 1));
                        assert(filter@.take(i + 1).drop_last() =~= filter@.take(i as int));
                        assert(filter@.take(i + 1).last() == filter@[i as int]);
                        lemma_filtered_snoc(self@.take(i + 1), filter@.take(i + 1));
                        assert(self@.take(i + 1).drop_last() =~= self@.take(i as int));
                        lemma_ones_split(filter@, i + 1);
                        lemma_ones_bound(filter@.skip(i + 1));
                        lemma_filtered_len(self@.take(i as int), filter@.take(i as int));
                        lemma_ones_bound(filter@.take(i as int));
                    }
                    if fv[i] == 1 {
                        let ghost dpre = d@;
                        let ghost outg = out as int;
                        let x = s[i].clone();
                        d[out] = x;
                        proof {
                            let xi = self@[i as int];
                            let oldt = old(dest)@.take(offset as int) + filtered_seq(
                                self@.take(i as int),
                                filter@.take(i as int),
                            ) + old(dest)@.skip(offset + ones(filter@.take(i as int)));
                            assert(strings_view(dpre) == oldt);
                            assert(filtered_seq(self@.take(i + 1), filter@.take(i + 1))
                                == filtered_seq(self@.take(i as int), filter@.take(i as int))
                                + seq![xi]);
                            assert(ones(filter@.take(i + 1)) == ones(filter@.take(i as int)) + 1);
                            let lhs = strings_view(d@);
                            let rhs = old(dest)@.take(offset as int) + filtered_seq(
                                self@.take(i + 1),
                                filter@.take(i + 1),
                            ) + old(dest)@.skip(offset + ones(filter@.take(i + 1)));
                            assert(lhs.len() == rhs.len());
                            assert forall|k: int| 0 <= k < lhs.len() implies lhs[k] == rhs[k] by {
                                if k == outg {
                                    assert(lhs[k] == xi);
                                    assert(rhs[k] == xi);
                                } else {
                                    assert(lhs[k] == strings_view(dpre)[k]);
                                    if k < outg {
                                        assert(rhs[k] == oldt[k]);
                                    } else {
                                        assert(rhs[k] == old(dest)@[k]);
                                        assert(oldt[k] == old(dest)@[k]);
                                    }
                                }
                            }
                            assert(lhs =~= rhs);
                        }
                        out += 1;
                    } else {
                        proof {
                            assert(filter@[i as int] != ValV::I(1));
                            assert(strings_view(d@) =~= old(dest)@.take(offset as int)
                                + filtered_seq(self@.take(i + 1), filter@.take(i + 1)) + old(
                                dest,
                            )@.skip(offset + ones(filter@.take(i + 1))));
                        }
                    }
                    i += 1;
                }
                proof {
                    assert(self@.take(n as int) =~= self@);
                    assert(filter@.take(n as int) =~= filter@);
                }
            },
            _ => {
                proof {
                    assert(false);
                }
            },
        }
    }

    /// Total-order comparison of the elements at two indices.
    pub fn elems_cmp(&self, a_index: usize, b_index: usize) -> (r: core::cmp::Ordering)
        requires
            a_index < self@.len(),
            b_index < self@.len(),
        ensures
            r == val_cmp(self@[a_index as int], self@[b_index as int]),
    {
        match self {
            ColumnDataStorage::Ints(v) => {
                let a = v[a_index];
                let b = v[b_index];
                if a < b {
                    core::cmp::Ordering::Less
                } else if a == b {
                    core::cmp::Ordering::Equal
                } else {
                    core::cmp::Ordering::Greater
                }
            },
            ColumnDataStorage::Floats(v) => {
                let a = v[a_index];
                let b = v[b_index];
                let ka: u64 = if (a >> 52) & 0x7FF == 0x7FF && (a & 0xF_FFFF_FFFF_FFFF) != 0 {
                    0xFFFF_FFFF_FFFF_FFFF
                } else if a & 0x8000_0000_0000_0000 != 0 {
                    !a
                } else {
                    a | 0x8000_0000_0000_0000
                };
                let kb: u64 = if (b >> 52) & 0x7FF == 0x7FF && (b & 0xF_FFFF_FFFF_FFFF) != 0 {
                    0xFFFF_FFFF_FFFF_FFFF
                } else if b & 0x8000_0000_0000_0000 != 0 {
                    !b
                } else {
                    b | 0x8000_0000_0000_0000
                };
                if ka < kb {
                    core::cmp::Ordering::Less
                } else if ka == kb {
                    core::cmp::Ordering::Equal
                } else {
                    core::cmp::Ordering::Greater
                }
            },
            ColumnDataStorage::Strings(v) => strings_cmp(&v[a_index], &v[b_index]),
        }
    }

    /// Replaces self with the rows picked by `perms`, in that order.
    pub fn permute(&mut self, perms: &Vec<usize>)
        requires
            forall|k: int| 0 <= k < perms@.len() ==> (#[trigger] perms@[k]) < old(self)@.len(),
        ensures
            final(self)@ =~= Seq::new(perms@.len(), |k: int| old(self)@[perms@[k] as int]),
            final(self).dtype() == old(self).dtype(),
    {
        let n = perms.len();
        match &mut *self {
            ColumnDataStorage::Ints(v) => {
                let mut nv: Vec<i64> = Vec::new();
                let mut k: usize = 0;
                while k < n
                    invariant
                        k <= n,
                        n == perms@.len(),
                        old(self)@ == ints_view(v@),
                        v@.len() == old(self)@.len(),
                        forall|j: int| 0 <= j < n ==> (#[trigger] perms@[j]) < v@.len(),
                        nv@.len() == k,
                        forall|j: int| 0 <= j < k ==> #[trigger] nv@[j] == v@[perms@[j] as int],
                    decreases n - k,
                {
                    nv.push(v[perms[k]]);
                    k += 1;
                }
                *v = nv;
            },
            ColumnDataStorage::Floats(v) => {
                let mut nv: Vec<u64> = Vec::new();
                let mut k: usize = 0;
                while k < n
                    invariant
                        k <= n,
                        n == perms@.len(),
                        old(self)@ == floats_view(v@),
                        v@.len() == old(self)@.len(),
                        forall|j: int| 0 <= j < n ==> (#[trigger] perms@[j]) < v@.len(),
                        nv@.len() == k,
                        forall|j: int| 0 <= j < k ==> #[trigger] nv@[j] == v@[perms@[j] as int],
                    decreases n - k,
                {
                    nv.push(v[perms[k]]);
                    k += 1;
                }
                *v = nv;
            },
            ColumnDataStorage::Strings(v) => {
                let mut nv: Vec<String> = Vec::new();
                let mut k: usize = 0;
                while k < n
                    invariant
                        k <= n,
                        n == perms@.len(),
                        old(self)@ == strings_view(v@),
                        v@.len() == old(self)@.len(),
                        forall|j: int| 0 <= j < n ==> (#[trigger] perms@[j]) < v@.len(),
                        nv@.len() == k,
                        forall|j: int|
                            0 <= j < k ==> (#[trigger] nv@[j])@ == v@[perms@[j] as int]@,
                    decreases n - k,
                {
                    nv.push(v[perms[k]].clone());
                    k += 1;
                }
                *v = nv;
            },
        }
        proof {
            assert(self@ =~= Seq::new(perms@.len(), |k: int| old(self)@[perms@[k] as int]));
        }
    }

    /// Appends the byte image of the element at `at` to a running buffer;
    /// fails exactly on a string whose UTF-8 form overflows its length
    /// field.
    pub fn pack_value_to(&self, at: usize, dest: &mut Vec<u8>) -> (r: Result<(), String>)
        requires
            at < self@.len(),
        ensures
            match r {
                Ok(()) => final(dest)@ == old(dest)@ + val_le_bytes(self@[at as int]),
                Err(_) => final(dest)@ == old(dest)@ && encode_utf8(
                    self@[at as int].as_str_seq(),
                ).len() > u32::MAX,
            },
    {
        match self {
            ColumnDataStorage::Ints(v) => {
                i64_to_byte(v[at], dest);
                Ok(())
            },
            ColumnDataStorage::Floats(v) => {
                u64_to_byte(v[at], dest);
                Ok(())
            },
            ColumnDataStorage::Strings(v) => {
                match string_to_byte(v[at].as_str(), dest) {
                    Ok(()) => Ok(()),
                    Err(e) => Err(e),
                }
            },
        }
    }

    /// Overwrites the element at `at` with the value parsed at `pos` of `src`.
    pub fn unpack_value_from(&mut self, at: usize, src: &Vec<u8>, pos: usize) -> (r: Result<
        usize,
        String,
    >)
        requires
            at < old(self)@.len(),
        ensures
            match r {
                Ok(p) => {
                    &&& parse_val_at(old(self).dtype(), src@, pos as int) matches Some((v, pp))
                        && pp == p && final(self)@ =~= old(self)@.update(at as int, v)
                    &&& p <= src@.len()
                },
                Err(_) => parse_val_at(old(self).dtype(), src@, pos as int) is None && final(self)@
                    == old(self)@,
            },
            final(self).dtype() == old(self).dtype(),
    {
        match &mut *self {
            ColumnDataStorage::Ints(v) => {
                match i64_from_byte(src, pos) {
                    Some((x, p)) => {
                        v[at] = x;
                        proof {
                            assert(ints_view(v@) =~= old(self)@.update(at as int, ValV::I(x)));
                        }
                        Ok(p)
                    },
                    None => Err(String::from_str("unexpected end of data")),
                }
            },
            ColumnDataStorage::Floats(v) => {
                match u64_from_byte(src, pos) {
                    Some((x, p)) => {
                        v[at] = x;
                        proof {
                            assert(floats_view(v@) =~= old(self)@.update(at as int, ValV::F(x)));
                        }
                        Ok(p)
                    },
                    None => Err(String::from_str("unexpected end of data")),
                }
            },
            ColumnDataStorage::Strings(v) => {
                match string_from_byte(src, pos) {
                    Some((x, p)) => {
                        let ghost xv = x@;
                        v[at] = x;
                        proof {
                            assert(strings_view(v@) =~= old(self)@.update(at as int, ValV::S(xv)));
                        }
                        Ok(p)
                    },
                    None => Err(String::from_str("bad string data")),
                }
            },
        }
    }
}

/// Two character sequences that compare equal are the same sequence.
pub proof fn lemma_chars_cmp_eq(a: Seq<char>, b: Seq<char>)
    requires
        chars_cmp(a, b) is Equal,
    ensures
        a == b,
    decreases a.len(),
{
    if a.len() == 0 && b.len() == 0 {
        assert(a =~= b);
    } else {
        assert(a.len() > 0 && b.len() > 0);
        assert((a[0] as u32) == (b[0] as u32));
        assert(a[0] == b[0]) by {
            vstd::utf8::char_u32_cast(a[0], a[0] as u32);
            vstd::utf8::char_u32_cast(b[0], b[0] as u32);
        }
        lemma_chars_cmp_eq(a.drop_first(), b.drop_first());
        assert(a =~= seq![a[0]] + a.drop_first());
        assert(b =~= seq![b[0]] + b.drop_first());
    }
}

/// Swapping the operands mirrors the comparison.
pub proof fn lemma_chars_cmp_flip(a: Seq<char>, b: Seq<char>)
    ensures
        chars_cmp(a, b) is Less <==> chars_cmp(b, a) is Greater,
        chars_cmp(a, b) is Equal <==> chars_cmp(b, a) is Equal,
    decreases a.len(),
{
    if a.len() > 0 && b.len() > 0 {
        if (a[0] as u32) == (b[0] as u32) {
            lemma_chars_cmp_flip(a.drop_first(), b.drop_first());
        }
    }
}

/// Strict lexicographic order is transitive.
pub proof fn lemma_chars_cmp_trans(a: Seq<char>, b: Seq<char>, c: Seq<char>)
    requires
        chars_cmp(a, b) is Less,
        chars_cmp(b, c) is Less,
    ensures
        chars_cmp(a, c) is Less,
    decreases a.len(),
{
    if a.len() == 0 {
        assert(b.len() > 0);
        assert(c.len() > 0);
    } else {
        assert(b.len() > 0);
        assert(c.len() > 0);
        if (a[0] as u32) < (b[0] as u32) {
            if (b[0] as u32) <= (c[0] as u32) {
            } else {
                assert(false);
            }
        } else {
            assert((a[0] as u32) == (b[0] as u32));
            if (b[0] as u32) < (c[0] as u32) {
            } else {
                assert((b[0] as u32) == (c[0] as u32));
                lemma_chars_cmp_trans(a.drop_first(), b.drop_first(), c.drop_first());
            }
        }
    }
}

/// Values of one type that compare equal compare alike against every
/// third value. (Two NaN float patterns compare equal without being the
/// same pattern, so equality of the values themselves is not promised.)
pub proof fn lemma_val_cmp_eq_congruent(a: ValV, b: ValV, c: ValV)
    requires
        a.dtype() == b.dtype(),
        val_cmp(a, b) is Equal,
    ensures
        val_cmp(a, c) == val_cmp(b, c),
        val_cmp(c, a) == val_cmp(c, b),
{
    match (a, b) {
        (ValV::S(x), ValV::S(y)) => {
            lemma_chars_cmp_eq(x, y);
        },
        _ => {},
    }
}

/// Swapping the operands mirrors the comparison.
pub proof fn lemma_val_cmp_flip(a: ValV, b: ValV)
    ensures
        val_cmp(a, b) is Less <==> val_cmp(b, a) is Greater,
        val_cmp(a, b) is Equal <==> val_cmp(b, a) is Equal,
{
    match (a, b) {
        (ValV::S(x), ValV::S(y)) => {
            lemma_chars_cmp_flip(x, y);
        },
        _ => {},
    }
}

/// The strict order of values of one type is transitive.
pub proof fn lemma_val_cmp_trans(a: ValV, b: ValV, c: ValV)
    requires
        val_cmp(a, b) is Less,
        val_cmp(b, c) is Less,
        a.dtype() == b.dtype(),
        b.dtype() == c.dtype(),
    ensures
        val_cmp(a, c) is Less,
{
    match (a, b) {
        (ValV::S(x), ValV::S(y)) => {
            match c {
                ValV::S(z) => {
                    lemma_chars_cmp_trans(x, y, z);
                },
                _ => {},
            }
        },
        _ => {},
    }
}

/// Total-order comparison of two scalar values of one type.
pub fn val_cmp_exec(a: &Val, b: &Val) -> (r: core::cmp::Ordering)
    requires
        a@.dtype() == b@.dtype(),
    ensures
        r == val_cmp(a@, b@),
{
    match (a, b) {
        (Val::Int(x), Val::Int(y)) => {
            if *x < *y {
                core::cmp::Ordering::Less
            } else if *x == *y {
                core::cmp::Ordering::Equal
            } else {
                core::cmp::Ordering::Greater
            }
        },
        (Val::Float(x), Val::Float(y)) => {
            let ka: u64 = if (*x >> 52) & 0x7FF == 0x7FF && (*x & 0xF_FFFF_FFFF_FFFF) != 0 {
                0xFFFF_FFFF_FFFF_FFFF
            } else if *x & 0x8000_0000_0000_0000 != 0 {
                !*x
            } else {
                *x | 0x8000_0000_0000_0000
            };
            let kb: u64 = if (*y >> 52) & 0x7FF == 0x7FF && (*y & 0xF_FFFF_FFFF_FFFF) != 0 {
                0xFFFF_FFFF_FFFF_FFFF
            } else if *y & 0x8000_0000_0000_0000 != 0 {
                !*y
            } else {
                *y | 0x8000_0000_0000_0000
            };
            if ka < kb {
                core::cmp::Ordering::Less
            } else if ka == kb {
                core::cmp::Ordering::Equal
            } else {
                core::cmp::Ordering::Greater
            }
        },
        (Val::Str(x), Val::Str(y)) => strings_cmp(x, y),
        _ => {
            proof {
                assert(false);
            }
            core::cmp::Ordering::Equal
        },
    }
}

/// Lexicographic comparison of two strings, by code point.
pub fn strings_cmp(a: &String, b: &String) -> (r: core::cmp::Ordering)
    ensures
        r == chars_cmp(a@, b@),
{
    let alen = a.as_str().unicode_len();
    let blen = b.as_str().unicode_len();
    let n: usize = if alen <= blen {
        alen
    } else {
        blen
    };
    let mut i: usize = 0;
    while i < n
        invariant
            i <= n,
            alen == a@.len(),
            blen == b@.len(),
            n == if alen <= blen {
                alen
            } else {
                blen
            },
            forall|j: int| 0 <= j < i ==> a@[j] == b@[j],
        decreases n - i,
    {
        let ca = a.as_str().get_char(i);
        let cb = b.as_str().get_char(i);
        if (ca as u32) < (cb as u32) {
            proof {
                lemma_chars_cmp_skip(a@, b@, i as int);
                assert(a@.skip(i as int)[0] == a@[i as int]);
                assert(b@.skip(i as int)[0] == b@[i as int]);
            }
            return core::cmp::Ordering::Less;
        }
        if (ca as u32) > (cb as u32) {
            proof {
                lemma_chars_cmp_skip(a@, b@, i as int);
                assert(a@.skip(i as int)[0] == a@[i as int]);
                assert(b@.skip(i as int)[0] == b@[i as int]);
            }
            return core::cmp::Ordering::Greater;
        }
        i += 1;
    }
    proof {
        lemma_chars_cmp_skip(a@, b@, n as int);
        assert(a@.skip(n as int).len() == alen - n);
        assert(b@.skip(n as int).len() == blen - n);
    }
    if alen == blen {
        core::cmp::Ordering::Equal
    } else if alen < blen {
        core::cmp::Ordering::Less
    } else {
        core::cmp::Ordering::Greater
    }
}

/// Makes an empty storage for the given scalar type.
pub fn make_storage(t: TypeName) -> (r: ColumnDataStorage)
    ensures
        r.dtype() == t,
        r@ =~= Seq::<ValV>::empty(),
{
    ColumnDataStorage::new(t)
}

/// Whether a storage holds elements of the given type.
pub fn is_storage_of(c: &ColumnDataStorage, t: TypeName) -> (r: bool)
    ensures
        r == (c.dtype() == t),
{
    c.type_of() == t
}

} // verus!
