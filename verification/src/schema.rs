use vstd::prelude::*;
use crate::types::{TypeName, str_eq};
use crate::columns::{Column, ColumnHeader};
use crate::serialize::{
    u32_le,
    string_le,
    u32_to_byte,
    u32_from_byte,
    string_to_byte,
    string_from_byte,
    parse_string_at,
};
use crate::codec::{concat_map, lemma_concat_map_snoc};

verus! {

use vstd::bytes::*;
use vstd::utf8::*;
use vstd::string::*;

/// An ordered list of column headers; the on-disk shape of one table.
pub struct Schema {
    headers: Vec<ColumnHeader>,
}

/// The name and type of one header, as contracts speak of it.
pub open spec fn header_pair(h: ColumnHeader) -> (Seq<char>, TypeName) {
    (h.name_spec(), h.dtype_spec())
}

pub open spec fn header_pairs(hs: Seq<ColumnHeader>) -> Seq<(Seq<char>, TypeName)> {
    hs.map_values(|h: ColumnHeader| header_pair(h))
}

/// The byte image of one header: its name, then its type's name.
pub open spec fn header_fn() -> spec_fn(ColumnHeader) -> Seq<u8> {
    |h: ColumnHeader| string_le(h.name_spec()) + string_le(h.dtype_spec().name_spec())
}

/// The byte image of a schema: the column count, then each header.
pub open spec fn schema_le(hs: Seq<ColumnHeader>) -> Seq<u8> {
    u32_le(hs.len() as u32) + concat_map(hs, header_fn())
}

/// Parsing `k` headers at `pos`.
pub open spec fn parse_headers(bytes: Seq<u8>, pos: int, k: nat) -> Option<
    (Seq<(Seq<char>, TypeName)>, int),
>
    decreases k,
{
    if k == 0 {
        Some((Seq::empty(), pos))
    } else {
        match parse_string_at(bytes, pos) {
            Some((name, p1)) => match parse_string_at(bytes, p1) {
                Some((tn, p2)) => match TypeName::from_name_spec(tn) {
                    Some(t) => match parse_headers(bytes, p2, (k - 1) as nat) {
                        Some((rest, p3)) => Some((seq![(name, t)] + rest, p3)),
                        None => None,
                    },
                    None => None,
                },
                None => None,
            },
            None => None,
        }
    }
}

/// What reading a schema from bytes yields, if anything.
pub open spec fn parse_schema(bytes: Seq<u8>) -> Option<Seq<(Seq<char>, TypeName)>> {
    if 4 <= bytes.len() {
        let k = spec_u32_from_le_bytes(bytes.subrange(0, 4)) as nat;
        match parse_headers(bytes, 4, k) {
            Some((hs, _p)) => Some(hs),
            None => None,
        }
    } else {
        None
    }
}

impl Schema {
    pub closed spec fn headers_spec(&self) -> Seq<ColumnHeader> {
        self.headers@
    }

    pub open spec fn pairs(&self) -> Seq<(Seq<char>, TypeName)> {
        header_pairs(self.headers_spec())
    }

    pub fn new(headers: Vec<ColumnHeader>) -> (r: Schema)
        ensures
            r.headers_spec() == headers@,
    {
        Schema { headers }
    }

    pub fn len(&self) -> (r: usize)
        ensures
            r == self.headers_spec().len(),
    {
        self.headers.len()
    }

    pub fn headers_ref(&self) -> (r: &Vec<ColumnHeader>)
        ensures
            r@ == self.headers_spec(),
    {
        &self.headers
    }

    pub fn header_at(&self, i: usize) -> (r: &ColumnHeader)
        requires
            i < self.headers_spec().len(),
        ensures
            r == self.headers_spec()[i as int],
    {
        &self.headers[i]
    }

    /// The position of the first header with the given name.
    pub fn col_index_of(&self, name: &str) -> (r: Option<usize>)
        ensures
            match r {
                Some(i) => i < self.headers_spec().len() && self.headers_spec()[i as int].name_spec()
                    == name@ && forall|j: int|
                    0 <= j < i ==> (#[trigger] self.headers_spec()[j]).name_spec() != name@,
                None => forall|j: int|
                    0 <= j < self.headers_spec().len() ==> (
                    #[trigger] self.headers_spec()[j]).name_spec() != name@,
            },
    {
        let mut i: usize = 0;
        while i < self.headers.len()
            invariant
                i <= self.headers_spec().len(),
                forall|j: int|
                    0 <= j < i ==> (#[trigger] self.headers_spec()[j]).name_spec() != name@,
            decreases self.headers_spec().len() - i,
        {
            if str_eq(self.headers[i].name(), name) {
                return Some(i);
            }
            i += 1;
        }
        None
    }

    /// The first header with the given name, if any.
    pub fn find_col(&self, name: &str) -> (r: Option<&ColumnHeader>)
        ensures
            match r {
                Some(h) => exists|i: int|
                    0 <= i < self.headers_spec().len() && h == self.headers_spec()[i]
                        && h.name_spec() == name@,
                None => forall|j: int|
                    0 <= j < self.headers_spec().len() ==> (
                    #[trigger] self.headers_spec()[j]).name_spec() != name@,
            },
    {
        match self.col_index_of(name) {
            Some(i) => Some(&self.headers[i]),
            None => None,
        }
    }
}

impl Clone for Schema {
    fn clone(&self) -> (r: Self)
        ensures
            r.pairs() == self.pairs(),
    {
        let mut hs: Vec<ColumnHeader> = Vec::new();
        let mut i: usize = 0;
        while i < self.headers.len()
            invariant
                i <= self.headers_spec().len(),
                hs@.len() == i,
                forall|j: int|
                    0 <= j < i ==> header_pair(#[trigger] hs@[j]) == header_pair(
                        self.headers_spec()[j],
                    ),
            decreases self.headers_spec().len() - i,
        {
            hs.push(self.headers[i].clone());
            i += 1;
        }
        let r = Schema { headers: hs };
        proof {
            assert(r.pairs() =~= self.pairs());
        }
        r
    }
}

// ------------------------------------------------------------------
// Schema bytes: writing and reading the self-describing schema file.
// ------------------------------------------------------------------

/// Encodes a schema; fails only when a name is too long for its length
/// field or there are too many columns.
pub fn write_schema(s: &Schema) -> (r: Result<Vec<u8>, String>)
    ensures
        match r {
            Ok(b) => {
                &&& b@ == schema_le(s.headers_spec())
                &&& parse_schema(b@) == Some(s.pairs())
            },
            Err(_) => s.headers_spec().len() > u32::MAX || exists|j: int|
                0 <= j < s.headers_spec().len() && (encode_utf8(
                    (#[trigger] s.headers_spec()[j]).name_spec(),
                ).len() > u32::MAX || encode_utf8(s.headers_spec()[j].dtype_spec().name_spec()).len()
                    > u32::MAX),
        },
{
    let hs = s.headers_ref();
    if hs.len() > u32::MAX as usize {
        return Err(String::from_str("too many columns"));
    }
    let mut out: Vec<u8> = Vec::new();
    u32_to_byte(hs.len() as u32, &mut out);
    let mut i: usize = 0;
    while i < hs.len()
        invariant
            i <= hs@.len(),
            hs@ == s.headers_spec(),
            out@ == u32_le(hs@.len() as u32) + concat_map(hs@.take(i as int), header_fn()),
            forall|j: int|
                0 <= j < i ==> encode_utf8((#[trigger] hs@[j]).name_spec()).len() <= u32::MAX
                    && encode_utf8(hs@[j].dtype_spec().name_spec()).len() <= u32::MAX,
        decreases hs@.len() - i,
    {
        proof {
            lemma_concat_map_snoc(hs@, header_fn(), i as int);
        }
        match string_to_byte(hs[i].name(), &mut out) {
            Ok(()) => (),
            Err(e) => {
                return Err(e);
            },
        }
        match string_to_byte(hs[i].dtype().as_str(), &mut out) {
            Ok(()) => (),
            Err(e) => {
                return Err(e);
            },
        }
        i += 1;
    }
    proof {
        assert(hs@.take(hs@.len() as int) =~= hs@);
        lemma_headers_parse_from(hs@, 0);
        assert(hs@.skip(0) =~= hs@);
        assert(hs@.take(0) =~= Seq::<ColumnHeader>::empty());
        assert(concat_map(hs@.take(0), header_fn()).len() == 0);
        let b = schema_le(hs@);
        lemma_auto_spec_u32_to_from_le_bytes();
        assert(b.subrange(0, 4) =~= u32_le(hs@.len() as u32));
        assert(out@ == b);
    }
    Ok(out)
}

/// A written schema parses back to exactly its headers.
#[verifier::rlimit(100)]
pub proof fn lemma_headers_parse_from(hs: Seq<ColumnHeader>, j: int)
    requires
        0 <= j <= hs.len(),
        forall|i: int|
            0 <= i < hs.len() ==> encode_utf8((#[trigger] hs[i]).name_spec()).len() <= u32::MAX
                && encode_utf8(hs[i].dtype_spec().name_spec()).len() <= u32::MAX,
    ensures
        parse_headers(
            schema_le(hs),
            4 + concat_map(hs.take(j), header_fn()).len() as int,
            (hs.len() - j) as nat,
        ) == Some((header_pairs(hs.skip(j)), schema_le(hs).len() as int)),
    decreases hs.len() - j,
{
    reveal_strlit("Int");
    reveal_strlit("Float");
    reveal_strlit("String");
    lemma_auto_spec_u32_to_from_le_bytes();
    let b = schema_le(hs);
    let hf = header_fn();
    let pos = 4 + concat_map(hs.take(j), hf).len() as int;
    if j == hs.len() {
        assert(hs.take(j) =~= hs);
        assert(pos == b.len());
        assert(hs.skip(j) =~= Seq::<ColumnHeader>::empty());
        assert(header_pairs(hs.skip(j)) =~= Seq::<(Seq<char>, TypeName)>::empty());
    } else {
        let name = hs[j].name_spec();
        let t = hs[j].dtype_spec();
        let tname = t.name_spec();
        crate::codec::lemma_concat_map_split(hs, hf, j);
        crate::codec::lemma_concat_map_skip_unfold(hs, hf, j);
        let prefix1 = u32_le(hs.len() as u32) + concat_map(hs.take(j), hf);
        let suffix1 = string_le(tname) + concat_map(hs.skip(j + 1), hf);
        assert(b =~= prefix1 + string_le(name) + suffix1);
        crate::serialize::lemma_string_le_parses(prefix1, name, suffix1);
        assert(parse_string_at(b, pos) == Some(
            (name, pos + string_le(name).len() as int),
        ));
        let p1 = pos + string_le(name).len() as int;
        let prefix2 = prefix1 + string_le(name);
        let suffix2 = concat_map(hs.skip(j + 1), hf);
        assert(b =~= prefix2 + string_le(tname) + suffix2);
        crate::serialize::lemma_string_le_parses(prefix2, tname, suffix2);
        assert(parse_string_at(b, p1) == Some((tname, p1 + string_le(tname).len() as int)));
        let p2 = p1 + string_le(tname).len() as int;
        assert(TypeName::from_name_spec(tname) == Some(t));
        lemma_headers_parse_from(hs, j + 1);
        assert(concat_map(hs.take(j + 1), hf) =~= concat_map(hs.take(j), hf) + hf(hs[j])) by {
            lemma_concat_map_snoc(hs, hf, j);
        }
        assert(p2 == 4 + concat_map(hs.take(j + 1), hf).len() as int);
        assert(parse_headers(b, p2, (hs.len() - j - 1) as nat) == Some(
            (header_pairs(hs.skip(j + 1)), b.len() as int),
        ));
        assert(header_pairs(hs.skip(j)) =~= seq![(name, t)] + header_pairs(hs.skip(j + 1)));
    }
}

/// Round trip of the schema file: the byte image of any schema whose
/// names fit their length fields parses back to exactly its headers.
pub proof fn lemma_schema_round_trip(hs: Seq<ColumnHeader>)
    requires
        hs.len() <= u32::MAX,
        forall|i: int|
            0 <= i < hs.len() ==> encode_utf8((#[trigger] hs[i]).name_spec()).len() <= u32::MAX
                && encode_utf8(hs[i].dtype_spec().name_spec()).len() <= u32::MAX,
    ensures
        parse_schema(schema_le(hs)) == Some(header_pairs(hs)),
{
    lemma_headers_parse_from(hs, 0);
    assert(hs.skip(0) =~= hs);
    assert(hs.take(0) =~= Seq::<ColumnHeader>::empty());
    assert(concat_map(hs.take(0), header_fn()).len() == 0);
    let b = schema_le(hs);
    lemma_auto_spec_u32_to_from_le_bytes();
    assert(b.subrange(0, 4) =~= u32_le(hs.len() as u32));
}

/// Decodes a schema from the byte image of a schema file.
pub fn read_schema(bytes: &Vec<u8>) -> (r: Result<Schema, String>)
    ensures
        match r {
            Ok(s) => parse_schema(bytes@) == Some(s.pairs()),
            Err(_) => parse_schema(bytes@) is None,
        },
{
    let (k32, p0) = match u32_from_byte(bytes, 0) {
        Some(xp) => xp,
        None => {
            return Err(String::from_str("bad schema data"));
        },
    };
    let k = k32 as usize;
    let ghost whole = parse_headers(bytes@, 4, k as nat);
    let mut hs: Vec<ColumnHeader> = Vec::new();
    let mut pos: usize = p0;
    let mut i: usize = 0;
    proof {
        assert(header_pairs(hs@) =~= Seq::<(Seq<char>, TypeName)>::empty());
        let rest = parse_headers(bytes@, pos as int, k as nat);
        if rest is Some {
            assert(header_pairs(hs@) + rest->Some_0.0 =~= rest->Some_0.0);
        }
    }
    while i < k
        invariant
            i <= k,
            hs@.len() == i,
            pos <= bytes@.len(),
            whole == parse_headers(bytes@, 4, k as nat),
            4 <= bytes@.len(),
            k == spec_u32_from_le_bytes(bytes@.subrange(0, 4)),
            ({
                let rest = parse_headers(bytes@, pos as int, (k - i) as nat);
                whole == (match rest {
                    Some((tail, p)) => Some((header_pairs(hs@) + tail, p)),
                    None => None::<(Seq<(Seq<char>, TypeName)>, int)>,
                })
            }),
        decreases k - i,
    {
        let (name, p1) = match string_from_byte(bytes, pos) {
            Some(xp) => xp,
            None => {
                return Err(String::from_str("bad schema data"));
            },
        };
        let (tn, p2) = match string_from_byte(bytes, p1) {
            Some(xp) => xp,
            None => {
                proof {
                    assert(parse_string_at(bytes@, p1 as int) is None);
                    assert(parse_headers(bytes@, pos as int, (k - i) as nat) is None);
                }
                return Err(String::from_str("bad schema data"));
            },
        };
        let t = match TypeName::try_from_str(tn.as_str()) {
            Some(t) => t,
            None => {
                proof {
                    assert(TypeName::from_name_spec(tn@) is None);
                    assert(parse_headers(bytes@, pos as int, (k - i) as nat) is None);
                }
                return Err(String::from_str("undefined type"));
            },
        };
        let ghost hpre = hs@;
        hs.push(ColumnHeader::new(name.as_str(), t));
        proof {
            assert(header_pairs(hs@) =~= header_pairs(hpre) + seq![(name@, t)]);
            let rest2 = parse_headers(bytes@, p2 as int, (k - i - 1) as nat);
            if rest2 is Some {
                assert(header_pairs(hpre) + (seq![(name@, t)] + rest2->Some_0.0) =~= header_pairs(
                    hs@,
                ) + rest2->Some_0.0);
            }
        }
        pos = p2;
        i += 1;
    }
    let s = Schema::new(hs);
    proof {
        assert(parse_headers(bytes@, pos as int, 0) == Some(
            (Seq::<(Seq<char>, TypeName)>::empty(), pos as int),
        ));
        assert(header_pairs(s.headers_spec()) + Seq::<(Seq<char>, TypeName)>::empty()
            =~= s.pairs());
    }
    Ok(s)
}

// ------------------------------------------------------------------
// Tables and the database handle.
// ------------------------------------------------------------------

/// A table: its directory path, its name, its schema, and the raw bytes of
/// its column files and block-sizes file, loaded by the caller.
pub struct Table {
    path: String,
    name: String,
    schema: Schema,
    sizes: Vec<u8>,
    cols: Vec<Vec<u8>>,
}

impl Table {
    /// One byte buffer per schema column.
    pub open spec fn wf(&self) -> bool {
        self.col_count() == self.schema_headers().len()
    }

    pub closed spec fn path_spec(&self) -> Seq<char> {
        self.path@
    }

    pub closed spec fn name_spec(&self) -> Seq<char> {
        self.name@
    }

    pub closed spec fn schema_headers(&self) -> Seq<ColumnHeader> {
        self.schema.headers_spec()
    }

    pub closed spec fn sizes_spec(&self) -> Seq<u8> {
        self.sizes@
    }

    pub closed spec fn col_bytes_spec(&self, i: int) -> Seq<u8> {
        self.cols@[i]@
    }

    /// How many column files the table actually holds bytes for.
    pub closed spec fn col_count(&self) -> nat {
        self.cols@.len()
    }

    pub fn new(path: &str, name: &str, schema: Schema) -> (r: Table)
        ensures
            r.wf(),
            r.path_spec() == path@,
            r.name_spec() == name@,
            r.schema_headers() == schema.headers_spec(),
            r.sizes_spec() =~= Seq::<u8>::empty(),
    {
        let n = schema.len();
        let mut cols: Vec<Vec<u8>> = Vec::new();
        let mut i: usize = 0;
        while i < n
            invariant
                cols@.len() == i,
                i <= n,
            decreases n - i,
        {
            cols.push(Vec::new());
            i += 1;
        }
        Table {
            path: String::from_str(path),
            name: String::from_str(name),
            schema,
            sizes: Vec::new(),
            cols,
        }
    }

    pub fn path(&self) -> (r: &str)
        ensures
            r@ == self.path_spec(),
    {
        self.path.as_str()
    }

    pub fn name(&self) -> (r: &str)
        ensures
            r@ == self.name_spec(),
    {
        self.name.as_str()
    }

    pub fn schema(&self) -> (r: &Schema)
        ensures
            r.headers_spec() == self.schema_headers(),
    {
        &self.schema
    }

    /// Stores the byte image of the block-sizes file.
    pub fn set_sizes_bytes(&mut self, bytes: Vec<u8>)
        ensures
            final(self).sizes_spec() == bytes@,
            final(self).wf() == old(self).wf(),
            final(self).path_spec() == old(self).path_spec(),
            final(self).name_spec() == old(self).name_spec(),
            final(self).schema_headers() == old(self).schema_headers(),
            forall|i: int| final(self).col_bytes_spec(i) == old(self).col_bytes_spec(i),
    {
        self.sizes = bytes;
    }

    /// Stores the byte image of one column file.
    pub fn set_col_bytes(&mut self, i: usize, bytes: Vec<u8>)
        requires
            old(self).wf(),
            i < old(self).schema_headers().len(),
        ensures
            final(self).wf(),
            final(self).path_spec() == old(self).path_spec(),
            final(self).name_spec() == old(self).name_spec(),
            final(self).schema_headers() == old(self).schema_headers(),
            final(self).sizes_spec() == old(self).sizes_spec(),
            final(self).col_bytes_spec(i as int) == bytes@,
            forall|j: int|
                0 <= j < old(self).schema_headers().len() && j != i ==> final(self).col_bytes_spec(
                    j,
                ) == old(self).col_bytes_spec(j),
    {
        self.cols[i] = bytes;
    }

    /// The byte image of column `i`, if the table holds one for it.
    pub fn col_bytes_at(&self, i: usize) -> (r: Option<&Vec<u8>>)
        ensures
            match r {
                Some(b) => i < self.schema_headers().len() && b@ == self.col_bytes_spec(i as int),
                None => i >= self.col_count() || i >= self.schema_headers().len(),
            },
    {
        if i < self.cols.len() && i < self.schema.len() {
            Some(&self.cols[i])
        } else {
            None
        }
    }

    pub fn col_bytes(&self, i: usize) -> (r: &Vec<u8>)
        requires
            self.wf(),
            i < self.schema_headers().len(),
        ensures
            r@ == self.col_bytes_spec(i as int),
    {
        &self.cols[i]
    }

    pub fn sizes_bytes(&self) -> (r: &Vec<u8>)
        ensures
            r@ == self.sizes_spec(),
    {
        &self.sizes
    }

    /// A fresh, empty column for the named schema column, if it exists.
    pub fn make_column(&self, name: &str) -> (r: Option<Column>)
        ensures
            match r {
                Some(c) => {
                    &&& c.wf()
                    &&& c.name_spec() == name@
                    &&& c.data_spec() =~= Seq::<crate::types::ValV>::empty()
                    &&& exists|i: int|
                        0 <= i < self.schema_headers().len() && (
                        #[trigger] self.schema_headers()[i]).name_spec() == name@
                            && self.schema_headers()[i].dtype_spec() == c.dtype_spec()
                },
                None => forall|i: int|
                    0 <= i < self.schema_headers().len() ==> (
                    #[trigger] self.schema_headers()[i]).name_spec() != name@,
            },
    {
        match self.schema.col_index_of(name) {
            Some(i) => {
                let h = self.schema.header_at(i);
                let c = Column::new(h.clone());
                proof {
                    assert(self.schema_headers()[i as int].name_spec() == name@
                        && self.schema_headers()[i as int].dtype_spec() == c.dtype_spec());
                }
                Some(c)
            },
            None => None,
        }
    }

    /// The position of the named column in the schema.
    pub fn col_index_of(&self, name: &str) -> (r: Option<usize>)
        ensures
            match r {
                Some(i) => i < self.schema_headers().len() && self.schema_headers()[
                    i as int].name_spec() == name@,
                None => forall|j: int|
                    0 <= j < self.schema_headers().len() ==> (
                    #[trigger] self.schema_headers()[j]).name_spec() != name@,
            },
    {
        self.schema.col_index_of(name)
    }

    /// The path of the table's block-sizes file.
    pub fn sizes_file_path(&self) -> (r: String)
        ensures
            r@ == self.path_spec() + "/_sizes.bin"@,
    {
        let mut p = self.path.clone();
        p.append("/_sizes.bin");
        proof {
            assert(p@ =~= self.path_spec() + "/_sizes.bin"@);
        }
        p
    }

    /// The path of the named column's file, if the column exists.
    pub fn col_path(&self, name: &str) -> (r: Option<String>)
        ensures
            match r {
                Some(p) => p@ == self.path_spec() + "/"@ + name@ + ".bin"@ && exists|i: int|
                    0 <= i < self.schema_headers().len() && (
                    #[trigger] self.schema_headers()[i]).name_spec() == name@,
                None => forall|j: int|
                    0 <= j < self.schema_headers().len() ==> (
                    #[trigger] self.schema_headers()[j]).name_spec() != name@,
            },
    {
        match self.schema.col_index_of(name) {
            Some(ci) => {
                proof {
                    assert(self.schema_headers()[ci as int].name_spec() == name@);
                }
                let mut p = self.path.clone();
                p.append("/");
                p.append(name);
                p.append(".bin");
                proof {
                    assert(p@ =~= self.path_spec() + "/"@ + name@ + ".bin"@);
                }
                Some(p)
            },
            None => None,
        }
    }
}

/// A database handle: a root path and the tables under it.
pub struct DB {
    path: String,
    tables: Vec<Table>,
}

impl DB {
    pub closed spec fn path_spec(&self) -> Seq<char> {
        self.path@
    }

    pub closed spec fn tables_spec(&self) -> Seq<Table> {
        self.tables@
    }

    pub fn new(path: &str, tables: Vec<Table>) -> (r: DB)
        ensures
            r.path_spec() == path@,
            r.tables_spec() == tables@,
    {
        DB { path: String::from_str(path), tables }
    }

    /// The first table with the given name, if any.
    pub fn get_table(&self, name: &str) -> (r: Option<&Table>)
        ensures
            match r {
                Some(t) => exists|i: int|
                    0 <= i < self.tables_spec().len() && t == self.tables_spec()[i]
                        && t.name_spec() == name@,
                None => forall|i: int|
                    0 <= i < self.tables_spec().len() ==> (
                    #[trigger] self.tables_spec()[i]).name_spec() != name@,
            },
    {
        let mut i: usize = 0;
        while i < self.tables.len()
            invariant
                i <= self.tables_spec().len(),
                forall|j: int|
                    0 <= j < i ==> (#[trigger] self.tables_spec()[j]).name_spec() != name@,
            decreases self.tables_spec().len() - i,
        {
            if str_eq(self.tables[i].name(), name) {
                return Some(&self.tables[i]);
            }
            i += 1;
        }
        None
    }
}

// ------------------------------------------------------------------
// The block-sizes stream: a flat file of little-endian u32 row counts.
// ------------------------------------------------------------------

/// Walks a byte image of the block-sizes file, one u32 per step.
pub struct BlockSizeIter {
    src: Vec<u8>,
    pos: usize,
}

impl BlockSizeIter {
    pub closed spec fn src_spec(&self) -> Seq<u8> {
        self.src@
    }

    pub closed spec fn pos_spec(&self) -> int {
        self.pos as int
    }

    pub fn new(src: Vec<u8>) -> (r: BlockSizeIter)
        ensures
            r.src_spec() == src@,
            r.pos_spec() == 0,
    {
        BlockSizeIter { src, pos: 0 }
    }

    /// How many u32 entries the stream holds in all.
    pub fn entry_count(&self) -> (r: usize)
        ensures
            r == self.src_spec().len() / 4,
    {
        self.src.len() / 4
    }

    pub fn position(&self) -> (r: usize)
        ensures
            r == self.pos_spec(),
    {
        self.pos
    }

    /// The next block size, or `None` at the end of the stream.
    pub fn next(&mut self) -> (r: Option<u32>)
        ensures
            final(self).src_spec() == old(self).src_spec(),
            match r {
                Some(v) => old(self).pos_spec() + 4 <= old(self).src_spec().len() && v
                    == spec_u32_from_le_bytes(
                    old(self).src_spec().subrange(old(self).pos_spec(), old(self).pos_spec() + 4),
                ) && final(self).pos_spec() == old(self).pos_spec() + 4 && final(self).pos_spec()
                    >= 4,
                None => old(self).pos_spec() + 4 > old(self).src_spec().len()
                    && final(self).pos_spec() == old(self).pos_spec(),
            },
    {
        match u32_from_byte(&self.src, self.pos) {
            Some((v, p)) => {
                self.pos = p;
                Some(v)
            },
            None => None,
        }
    }
}

/// A sizes iterator over a table's block-sizes bytes.
pub fn table_size_iterator(table: &Table) -> (r: BlockSizeIter)
    ensures
        r.src_spec() == table.sizes_spec(),
        r.pos_spec() == 0,
{
    let bytes = vstd::slice::slice_to_vec(table.sizes_bytes().as_slice());
    BlockSizeIter::new(bytes)
}

} // verus!

