use vstd::prelude::*;
use crate::types::{TypeName, Val, ValV, default_val_spec, str_eq};
use crate::columns::Column;
use crate::storage::{ColumnDataStorage, make_storage, resize_spec, fit_len};
use crate::codec::{ChunkReader, parse_chunk, make_col_reader};
use crate::functions::{RegFun, op_arity, op_apply_spec, op_defined};
use crate::DBResult;

verus! {

/// Leaves a column's rows exactly as the resize left them; used for output
/// columns that processors fill.
pub struct DontTouchSource {}

/// Fills a column by reading the next chunk of its column file.
pub struct ExternalSource {
    pub reader: ChunkReader,
}

/// Overwrites every row of a column with one fixed literal.
pub struct ConstValueSource {
    pub value: Val,
}

/// Fills a column by applying a scalar function to earlier columns.
pub struct FunctionSource {
    pub args: Vec<usize>,
    pub func: RegFun,
}

/// How one column's rows are produced during `process`.
pub enum ColumnSource {
    DontTouch(DontTouchSource),
    External(ExternalSource),
    Const(ConstValueSource),
    Function(FunctionSource),
}

impl DontTouchSource {
    pub fn new() -> (r: DontTouchSource) {
        DontTouchSource {  }
    }

    pub fn new_ref() -> (r: ColumnSource)
        ensures
            r is DontTouch,
    {
        ColumnSource::DontTouch(DontTouchSource::new())
    }
}

impl ExternalSource {
    pub fn new(src: Vec<u8>, dtype: TypeName) -> (r: ExternalSource)
        ensures
            r.reader.dtype_spec() == dtype,
            r.reader.src_spec() == src@,
            r.reader.pos_spec() == 0,
    {
        ExternalSource { reader: make_col_reader(dtype, src) }
    }

    pub fn new_ref(src: Vec<u8>, dtype: TypeName) -> (r: ColumnSource)
        ensures
            r matches ColumnSource::External(e) && e.reader.dtype_spec() == dtype
                && e.reader.src_spec() == src@ && e.reader.pos_spec() == 0,
    {
        ColumnSource::External(ExternalSource::new(src, dtype))
    }
}

impl ConstValueSource {
    pub fn new(value: Val) -> (r: ConstValueSource)
        ensures
            r.value == value,
    {
        ConstValueSource { value }
    }

    pub fn new_ref(value: Val) -> (r: ColumnSource)
        ensures
            r matches ColumnSource::Const(c) && c.value == value,
    {
        ColumnSource::Const(ConstValueSource::new(value))
    }
}

impl FunctionSource {
    pub fn new(args: Vec<usize>, func: RegFun) -> (r: FunctionSource)
        ensures
            r.args == args,
            r.func == func,
    {
        FunctionSource { args, func }
    }

    pub fn new_ref(args: Vec<usize>, func: RegFun) -> (r: ColumnSource)
        ensures
            r matches ColumnSource::Function(f) && f.args == args && f.func == func,
    {
        ColumnSource::Function(FunctionSource::new(args, func))
    }
}

/// Whether a source may stand at position `at` among these columns: its
/// type agrees with its column's, and a function reads only strictly
/// earlier columns of the right types.
pub open spec fn source_fits(s: ColumnSource, cols: Seq<Column>, at: int) -> bool {
    match s {
        ColumnSource::DontTouch(_) => true,
        ColumnSource::External(e) => e.reader.dtype_spec() == cols[at].dtype_spec(),
        ColumnSource::Const(c) => c.value@.dtype() == cols[at].dtype_spec(),
        ColumnSource::Function(f) => {
            &&& f.func.wf()
            &&& f.args@.len() == op_arity(f.func.op_spec())
            &&& forall|k: int| 0 <= k < f.args@.len() ==> (#[trigger] f.args@[k]) < at
            &&& cols[f.args@[0] as int].dtype_spec() == f.func.lt_spec()
            &&& (f.args@.len() == 2 ==> cols[f.args@[1] as int].dtype_spec() == f.func.rt_spec())
            &&& cols[at].dtype_spec() == f.func.result_dtype()
        },
    }
}

/// Whether two sources have the same shape: same kind, same type demands,
/// same function and arguments; only a reader's position may differ.
pub open spec fn source_shape_eq(a: ColumnSource, b: ColumnSource) -> bool {
    match (a, b) {
        (ColumnSource::DontTouch(_), ColumnSource::DontTouch(_)) => true,
        (ColumnSource::External(x), ColumnSource::External(y)) => x.reader.dtype_spec()
            == y.reader.dtype_spec(),
        (ColumnSource::Const(x), ColumnSource::Const(y)) => x.value@.dtype() == y.value@.dtype(),
        (ColumnSource::Function(x), ColumnSource::Function(y)) => x.args == y.args && x.func
            == y.func,
        _ => false,
    }
}

/// What one source leaves behind in its column after a successful
/// `process(rows)`: `news`/`newcols` are the block's state afterwards.
pub open spec fn source_outcome(
    olds: ColumnSource,
    news: ColumnSource,
    oldcols: Seq<Column>,
    newcols: Seq<Column>,
    i: int,
    rows: nat,
) -> bool {
    match olds {
        ColumnSource::DontTouch(_) => news == olds && newcols[i].data_spec() == resize_spec(
            oldcols[i].data_spec(),
            rows as int,
            default_val_spec(oldcols[i].dtype_spec()),
        ),
        ColumnSource::Const(c) => news == olds && newcols[i].data_spec() == Seq::new(
            rows,
            |k: int| c.value@,
        ),
        ColumnSource::External(e) => {
            &&& parse_chunk(e.reader.dtype_spec(), e.reader.src_spec(), e.reader.pos_spec())
                matches Some((vals, p)) && (vals.len() == rows && newcols[i].data_spec() == vals
                && (news matches ColumnSource::External(e2) && (e2.reader.src_spec()
                == e.reader.src_spec() && e2.reader.dtype_spec() == e.reader.dtype_spec()
                && e2.reader.pos_spec() == p)))
        },
        ColumnSource::Function(f) => {
            &&& news == olds
            &&& forall|k: int|
                0 <= k < rows ==> #[trigger] newcols[i].data_spec()[k] == op_apply_spec(
                    f.func.op_spec(),
                    newcols[f.args@[0] as int].data_spec()[k],
                    newcols[f.args@[f.args@.len() - 1] as int].data_spec()[k],
                )
            &&& forall|k: int|
                0 <= k < rows ==> op_defined(
                    f.func.op_spec(),
                    #[trigger] newcols[f.args@[0] as int].data_spec()[k],
                    newcols[f.args@[f.args@.len() - 1] as int].data_spec()[k],
                )
        },
    }
}

/// Whether a source can make `process` fail for a block of `rows` rows:
/// an external source whose next chunk does not parse to exactly `rows`
/// values, or a division some row of whose operands is undefined.
pub open spec fn source_may_fail(s: ColumnSource, cols: Seq<Column>, rows: nat) -> bool {
    match s {
        ColumnSource::External(e) => !(parse_chunk(
            e.reader.dtype_spec(),
            e.reader.src_spec(),
            e.reader.pos_spec(),
        ) matches Some((vals, p)) && vals.len() == rows),
        ColumnSource::Function(f) => f.func.op_spec() == crate::functions::OpKind::Divide
            && exists|k: int|
            0 <= k < rows && !op_defined(
                f.func.op_spec(),
                cols[f.args@[0] as int].data_spec()[k],
                #[trigger] cols[f.args@[f.args@.len() - 1] as int].data_spec()[k],
            ),
        _ => false,
    }
}

/// The row count of a block: the first column's length, or 0 without
/// columns.
pub open spec fn block_rows(b: ColumnBlock) -> nat {
    if b.cols_spec().len() == 0 {
        0
    } else {
        b.cols_spec()[0].data_spec().len()
    }
}

/// The whole effect of a successful `process(rows)` call.
pub open spec fn processed(oldb: ColumnBlock, newb: ColumnBlock, rows: nat) -> bool {
    &&& newb.wf()
    &&& newb.cols_spec().len() == oldb.cols_spec().len()
    &&& newb.sources_spec().len() == oldb.sources_spec().len()
    &&& forall|i: int|
        0 <= i < oldb.cols_spec().len() ==> (#[trigger] newb.cols_spec()[i]).name_spec()
            == oldb.cols_spec()[i].name_spec() && newb.cols_spec()[i].dtype_spec()
            == oldb.cols_spec()[i].dtype_spec()
    &&& newb.uniform(rows)
    &&& forall|i: int|
        0 <= i < oldb.cols_spec().len() ==> source_outcome(
            #[trigger] oldb.sources_spec()[i],
            newb.sources_spec()[i],
            oldb.cols_spec(),
            newb.cols_spec(),
            i,
            rows,
        )
}

/// The vectorized evaluation unit: columns in insertion order, each with
/// the source that fills it.
pub struct ColumnBlock {
    columns: Vec<Column>,
    sources: Vec<ColumnSource>,
}

impl ColumnBlock {
    pub closed spec fn cols_spec(&self) -> Seq<Column> {
        self.columns@
    }

    pub closed spec fn sources_spec(&self) -> Seq<ColumnSource> {
        self.sources@
    }

    /// Columns and sources are aligned; columns are well-formed with
    /// pairwise distinct names; every source fits its position.
    pub open spec fn wf(&self) -> bool {
        &&& self.cols_spec().len() == self.sources_spec().len()
        &&& forall|i: int| 0 <= i < self.cols_spec().len() ==> (#[trigger] self.cols_spec()[i]).wf()
        &&& forall|i: int, j: int|
            0 <= i < j < self.cols_spec().len() ==> (#[trigger] self.cols_spec()[i]).name_spec()
                != (#[trigger] self.cols_spec()[j]).name_spec()
        &&& forall|i: int|
            0 <= i < self.cols_spec().len() ==> source_fits(
                #[trigger] self.sources_spec()[i],
                self.cols_spec(),
                i,
            )
    }

    /// All columns hold exactly `n` rows.
    pub open spec fn uniform(&self, n: nat) -> bool {
        forall|i: int|
            0 <= i < self.cols_spec().len() ==> (#[trigger] self.cols_spec()[i]).data_spec().len()
                == n
    }

    pub fn new() -> (r: ColumnBlock)
        ensures
            r.wf(),
            r.cols_spec().len() == 0,
    {
        ColumnBlock { columns: Vec::new(), sources: Vec::new() }
    }

    pub fn cols_len(&self) -> (r: usize)
        ensures
            r == self.cols_spec().len(),
    {
        self.columns.len()
    }

    pub fn is_empty(&self) -> (r: bool)
        ensures
            r == (self.cols_spec().len() == 0),
    {
        self.columns.len() == 0
    }

    /// The row count of the first column (all columns agree after a
    /// successful `process`), or 0 for an empty block.
    pub fn rows_len(&self) -> (r: usize)
        ensures
            self.cols_spec().len() == 0 ==> r == 0,
            self.cols_spec().len() > 0 ==> r == self.cols_spec()[0].data_spec().len(),
    {
        if self.columns.len() == 0 {
            0
        } else {
            self.columns[0].len()
        }
    }

    /// Appends a column together with its source.
    pub fn add(&mut self, column: Column, source: ColumnSource)
        requires
            old(self).wf(),
            column.wf(),
            forall|i: int|
                0 <= i < old(self).cols_spec().len() ==> (
                #[trigger] old(self).cols_spec()[i]).name_spec() != column.name_spec(),
            source_fits(source, old(self).cols_spec().push(column), old(self).cols_spec().len() as int),
        ensures
            final(self).wf(),
            final(self).cols_spec() == old(self).cols_spec().push(column),
            final(self).sources_spec() == old(self).sources_spec().push(source),
    {
        self.columns.push(column);
        self.sources.push(source);
        proof {
            assert forall|i: int|
                0 <= i < self.cols_spec().len() implies source_fits(
                #[trigger] self.sources_spec()[i],
                self.cols_spec(),
                i,
            ) by {
                if i < self.cols_spec().len() - 1 {
                    assert(source_fits(
                        old(self).sources_spec()[i],
                        old(self).cols_spec(),
                        i,
                    ));
                    assert(self.sources_spec()[i] == old(self).sources_spec()[i]);
                    match self.sources_spec()[i] {
                        ColumnSource::Function(f) => {
                            assert(self.cols_spec()[f.args@[0] as int] == old(self).cols_spec()[
                                f.args@[0] as int]);
                        },
                        _ => {},
                    }
                }
            }
        }
    }

    pub fn has_col(&self, name: &str) -> (r: bool)
        ensures
            r == exists|i: int|
                0 <= i < self.cols_spec().len() && (#[trigger] self.cols_spec()[i]).name_spec()
                    == name@,
    {
        match self.col_index_by_name(name) {
            Some(_) => true,
            None => false,
        }
    }

    /// The position of the column with the given name.
    pub fn col_index_by_name(&self, name: &str) -> (r: Option<usize>)
        ensures
            match r {
                Some(i) => i < self.cols_spec().len() && self.cols_spec()[i as int].name_spec()
                    == name@,
                None => forall|i: int|
                    0 <= i < self.cols_spec().len() ==> (
                    #[trigger] self.cols_spec()[i]).name_spec() != name@,
            },
    {
        let mut i: usize = 0;
        while i < self.columns.len()
            invariant
                i <= self.cols_spec().len(),
                forall|j: int|
                    0 <= j < i ==> (#[trigger] self.cols_spec()[j]).name_spec() != name@,
            decreases self.cols_spec().len() - i,
        {
            if str_eq(self.columns[i].name(), name) {
                return Some(i);
            }
            i += 1;
        }
        None
    }

    pub fn col_at(&self, i: usize) -> (r: &Column)
        requires
            i < self.cols_spec().len(),
        ensures
            r == self.cols_spec()[i as int],
    {
        &self.columns[i]
    }

    /// Resizes every column to exactly `rows`.
    pub fn resize(&mut self, rows: usize)
        requires
            old(self).wf(),
        ensures
            final(self).wf(),
            final(self).sources_spec() == old(self).sources_spec(),
            final(self).cols_spec().len() == old(self).cols_spec().len(),
            forall|i: int|
                0 <= i < old(self).cols_spec().len() ==> {
                    &&& (#[trigger] final(self).cols_spec()[i]).name_spec() == old(
                        self,
                    ).cols_spec()[i].name_spec()
                    &&& final(self).cols_spec()[i].dtype_spec() == old(self).cols_spec()[
                        i].dtype_spec()
                    &&& final(self).cols_spec()[i].data_spec() == resize_spec(
                        old(self).cols_spec()[i].data_spec(),
                        rows as int,
                        default_val_spec(old(self).cols_spec()[i].dtype_spec()),
                    )
                },
            final(self).uniform(rows as nat),
    {
        let n = self.columns.len();
        let mut i: usize = 0;
        while i < n
            invariant
                i <= n,
                n == self.cols_spec().len(),
                self.cols_spec().len() == old(self).cols_spec().len(),
                self.sources_spec() == old(self).sources_spec(),
                forall|j: int| 0 <= j < n ==> (#[trigger] self.cols_spec()[j]).wf(),
                forall|j: int|
                    0 <= j < n ==> (#[trigger] self.cols_spec()[j]).name_spec() == old(
                        self,
                    ).cols_spec()[j].name_spec(),
                forall|j: int|
                    0 <= j < n ==> (#[trigger] self.cols_spec()[j]).dtype_spec() == old(
                        self,
                    ).cols_spec()[j].dtype_spec(),
                forall|j: int|
                    0 <= j < i ==> (#[trigger] self.cols_spec()[j]).data_spec() == resize_spec(
                        old(self).cols_spec()[j].data_spec(),
                        rows as int,
                        default_val_spec(old(self).cols_spec()[j].dtype_spec()),
                    ),
                forall|j: int|
                    i <= j < n ==> (#[trigger] self.cols_spec()[j]).data_spec() == old(
                        self,
                    ).cols_spec()[j].data_spec(),
                old(self).wf(),
            decreases n - i,
        {
            let ghost cpre = self.cols_spec();
            let mut col = self.columns.remove(i);
            col.resize(rows);
            self.columns.insert(i, col);
            proof {
                assert(self.cols_spec() =~= cpre.update(i as int, self.cols_spec()[i as int]));
            }
            i += 1;
        }
        proof {
            self.lemma_wf_from_types(old(self));
        }
    }

    /// Drops the first `offset` rows of every column, then keeps at most
    /// `limit` of the rest.
    pub fn fit_offset_limit(&mut self, offset: usize, limit: Option<usize>)
        requires
            old(self).wf(),
            forall|i: int|
                0 <= i < old(self).cols_spec().len() ==> offset <= (
                #[trigger] old(self).cols_spec()[i]).data_spec().len(),
        ensures
            final(self).wf(),
            final(self).sources_spec() == old(self).sources_spec(),
            final(self).cols_spec().len() == old(self).cols_spec().len(),
            forall|i: int|
                0 <= i < old(self).cols_spec().len() ==> {
                    &&& (#[trigger] final(self).cols_spec()[i]).name_spec() == old(
                        self,
                    ).cols_spec()[i].name_spec()
                    &&& final(self).cols_spec()[i].dtype_spec() == old(self).cols_spec()[
                        i].dtype_spec()
                    &&& final(self).cols_spec()[i].data_spec() == old(self).cols_spec()[
                        i].data_spec().subrange(
                        offset as int,
                        offset + fit_len(
                            old(self).cols_spec()[i].data_spec().len() as int,
                            offset as int,
                            limit,
                        ),
                    )
                },
    {
        let n = self.columns.len();
        let mut i: usize = 0;
        while i < n
            invariant
                i <= n,
                n == self.cols_spec().len(),
                self.cols_spec().len() == old(self).cols_spec().len(),
                self.sources_spec() == old(self).sources_spec(),
                old(self).wf(),
                forall|j: int|
                    0 <= j < n ==> offset <= (
                    #[trigger] old(self).cols_spec()[j]).data_spec().len(),
                forall|j: int| 0 <= j < n ==> (#[trigger] self.cols_spec()[j]).wf(),
                forall|j: int|
                    0 <= j < n ==> (#[trigger] self.cols_spec()[j]).name_spec() == old(
                        self,
                    ).cols_spec()[j].name_spec(),
                forall|j: int|
                    0 <= j < n ==> (#[trigger] self.cols_spec()[j]).dtype_spec() == old(
                        self,
                    ).cols_spec()[j].dtype_spec(),
                forall|j: int|
                    0 <= j < i ==> (#[trigger] self.cols_spec()[j]).data_spec() == old(
                        self,
                    ).cols_spec()[j].data_spec().subrange(
                        offset as int,
                        offset + fit_len(
                            old(self).cols_spec()[j].data_spec().len() as int,
                            offset as int,
                            limit,
                        ),
                    ),
                forall|j: int|
                    i <= j < n ==> (#[trigger] self.cols_spec()[j]).data_spec() == old(
                        self,
                    ).cols_spec()[j].data_spec(),
            decreases n - i,
        {
            let ghost cpre = self.cols_spec();
            let mut col = self.columns.remove(i);
            col.fit_offset_limit(offset, limit);
            self.columns.insert(i, col);
            proof {
                assert(self.cols_spec() =~= cpre.update(i as int, self.cols_spec()[i as int]));
            }
            i += 1;
        }
        proof {
            self.lemma_shape_eq_refl(old(self));
            self.lemma_wf_from_types(old(self));
        }
    }

    /// Reorders every column by the same index vector.
    pub fn permute(&mut self, perms: &Vec<usize>)
        requires
            old(self).wf(),
            forall|k: int, i: int|
                0 <= k < perms@.len() && 0 <= i < old(self).cols_spec().len() ==> (
                #[trigger] perms@[k]) < (#[trigger] old(self).cols_spec()[i]).data_spec().len(),
        ensures
            final(self).wf(),
            final(self).sources_spec() == old(self).sources_spec(),
            final(self).cols_spec().len() == old(self).cols_spec().len(),
            forall|i: int|
                0 <= i < old(self).cols_spec().len() ==> {
                    &&& (#[trigger] final(self).cols_spec()[i]).name_spec() == old(
                        self,
                    ).cols_spec()[i].name_spec()
                    &&& final(self).cols_spec()[i].dtype_spec() == old(self).cols_spec()[
                        i].dtype_spec()
                    &&& final(self).cols_spec()[i].data_spec() == Seq::new(
                        perms@.len(),
                        |k: int| old(self).cols_spec()[i].data_spec()[perms@[k] as int],
                    )
                },
    {
        let n = self.columns.len();
        let mut i: usize = 0;
        while i < n
            invariant
                i <= n,
                n == self.cols_spec().len(),
                self.cols_spec().len() == old(self).cols_spec().len(),
                self.sources_spec() == old(self).sources_spec(),
                old(self).wf(),
                forall|k: int, j: int|
                    0 <= k < perms@.len() && 0 <= j < n ==> (#[trigger] perms@[k]) < (
                    #[trigger] old(self).cols_spec()[j]).data_spec().len(),
                forall|j: int| 0 <= j < n ==> (#[trigger] self.cols_spec()[j]).wf(),
                forall|j: int|
                    0 <= j < n ==> (#[trigger] self.cols_spec()[j]).name_spec() == old(
                        self,
                    ).cols_spec()[j].name_spec(),
                forall|j: int|
                    0 <= j < n ==> (#[trigger] self.cols_spec()[j]).dtype_spec() == old(
                        self,
                    ).cols_spec()[j].dtype_spec(),
                forall|j: int|
                    0 <= j < i ==> (#[trigger] self.cols_spec()[j]).data_spec() == Seq::new(
                        perms@.len(),
                        |k: int| old(self).cols_spec()[j].data_spec()[perms@[k] as int],
                    ),
                forall|j: int|
                    i <= j < n ==> (#[trigger] self.cols_spec()[j]).data_spec() == old(
                        self,
                    ).cols_spec()[j].data_spec(),
            decreases n - i,
        {
            let ghost cpre = self.cols_spec();
            let mut col = self.columns.remove(i);
            col.permute(perms);
            self.columns.insert(i, col);
            proof {
                assert(self.cols_spec() =~= cpre.update(i as int, self.cols_spec()[i as int]));
            }
            i += 1;
        }
        proof {
            self.lemma_wf_from_types(old(self));
        }
    }

    /// Resizes every column to `rows`, then walks the sources in insertion
    /// order, each filling its own column; a function source therefore
    /// reads only values produced earlier in the same call.
    pub fn process(&mut self, rows: usize) -> (r: DBResult<()>)
        requires
            old(self).wf(),
        ensures
            final(self).wf(),
            final(self).cols_spec().len() == old(self).cols_spec().len(),
            final(self).sources_spec().len() == old(self).sources_spec().len(),
            forall|i: int|
                0 <= i < old(self).cols_spec().len() ==> {
                    &&& (#[trigger] final(self).cols_spec()[i]).name_spec() == old(
                        self,
                    ).cols_spec()[i].name_spec()
                    &&& final(self).cols_spec()[i].dtype_spec() == old(self).cols_spec()[
                        i].dtype_spec()
                },
            r is Ok ==> final(self).uniform(rows as nat) && forall|i: int|
                0 <= i < old(self).cols_spec().len() ==> source_outcome(
                    #[trigger] old(self).sources_spec()[i],
                    final(self).sources_spec()[i],
                    old(self).cols_spec(),
                    final(self).cols_spec(),
                    i,
                    rows as nat,
                ),
            r is Ok ==> processed(*old(self), *final(self), rows as nat),
            forall|i: int|
                0 <= i < old(self).sources_spec().len() ==> source_shape_eq(
                    #[trigger] final(self).sources_spec()[i],
                    old(self).sources_spec()[i],
                ),
            r is Err ==> exists|i: int|
                0 <= i < final(self).sources_spec().len() && source_may_fail(
                    #[trigger] final(self).sources_spec()[i],
                    final(self).cols_spec(),
                    rows as nat,
                ),
    {
        self.resize(rows);
        let n = self.columns.len();
        let mut i: usize = 0;
        while i < n
            invariant
                i <= n,
                n == self.cols_spec().len(),
                self.cols_spec().len() == self.sources_spec().len(),
                self.cols_spec().len() == old(self).cols_spec().len(),
                old(self).wf(),
                self.wf(),
                self.uniform(rows as nat),
                forall|j: int|
                    0 <= j < n ==> (#[trigger] self.cols_spec()[j]).name_spec() == old(
                        self,
                    ).cols_spec()[j].name_spec(),
                forall|j: int|
                    0 <= j < n ==> (#[trigger] self.cols_spec()[j]).dtype_spec() == old(
                        self,
                    ).cols_spec()[j].dtype_spec(),
                forall|j: int|
                    i <= j < n ==> #[trigger] self.sources_spec()[j] == old(self).sources_spec()[j],
                forall|j: int|
                    0 <= j < n ==> source_shape_eq(
                        #[trigger] self.sources_spec()[j],
                        old(self).sources_spec()[j],
                    ),
                forall|j: int|
                    i <= j < n ==> (#[trigger] self.cols_spec()[j]).data_spec() == resize_spec(
                        old(self).cols_spec()[j].data_spec(),
                        rows as int,
                        default_val_spec(old(self).cols_spec()[j].dtype_spec()),
                    ),
                forall|j: int|
                    0 <= j < i ==> source_outcome(
                        #[trigger] old(self).sources_spec()[j],
                        self.sources_spec()[j],
                        old(self).cols_spec(),
                        self.cols_spec(),
                        j,
                        rows as nat,
                    ),
            decreases n - i,
        {
            let ghost cpre = self.cols_spec();
            let ghost spre = self.sources_spec();
            let mut col = self.columns.remove(i);
            let step: DBResult<()> = match &mut self.sources[i] {
                ColumnSource::DontTouch(_) => Ok(()),
                ColumnSource::Const(c) => {
                    let mut st = make_storage(col.dtype());
                    let mut k: usize = 0;
                    while k < rows
                        invariant
                            k <= rows,
                            st.dtype() == col.dtype_spec(),
                            col.dtype_spec() == c.value@.dtype(),
                            st@ =~= Seq::new(k as nat, |m: int| c.value@),
                        decreases rows - k,
                    {
                        st.push(c.value.clone());
                        proof {
                            assert(st@ =~= Seq::new((k + 1) as nat, |m: int| c.value@));
                        }
                        k += 1;
                    }
                    col.set_data(st);
                    Ok(())
                },
                ColumnSource::External(e) => {
                    let p0 = e.reader.position();
                    let mut data = col.take_data();
                    match e.reader.read_col(&mut data) {
                        Ok(()) => {
                            if data.len() != rows {
                                // leave the reader where the bad chunk starts
                                e.reader.set_position(p0);
                                col.set_data(data);
                                Err(String::from_str("chunk does not match the block size"))
                            } else {
                                col.set_data(data);
                                Ok(())
                            }
                        },
                        Err(er) => {
                            col.set_data(data);
                            Err(er)
                        },
                    }
                },
                ColumnSource::Function(f) => {
                    let mut argrefs: Vec<&Column> = Vec::new();
                    let na = f.args.len();
                    let mut k: usize = 0;
                    while k < na
                        invariant
                            k <= na,
                            na == f.args@.len(),
                            forall|m: int| 0 <= m < na ==> (#[trigger] f.args@[m]) < i,
                            i < self.columns@.len() + 1,
                            i <= self.columns@.len(),
                            argrefs@.len() == k,
                            forall|m: int|
                                0 <= m < k ==> #[trigger] argrefs@[m] == self.columns@[
                                    f.args@[m] as int],
                        decreases na - k,
                    {
                        let a = f.args[k];
                        argrefs.push(&self.columns[a]);
                        k += 1;
                    }
                    let ghost a0 = f.args@[0] as int;
                    let ghost a1 = f.args@[f.args@.len() - 1] as int;
                    let ghost adat = self.columns@[a0].data_spec();
                    let ghost bdat = self.columns@[a1].data_spec();
                    let res = f.func.apply(argrefs, &mut col);
                    proof {
                        if res is Err {
                            assert(exists|m: int|
                                0 <= m < adat.len() && !op_defined(
                                    f.func.op_spec(),
                                    adat[m],
                                    #[trigger] bdat[m],
                                ));
                        }
                    }
                    res
                },
            };
            self.columns.insert(i, col);
            proof {
                assert(self.cols_spec() =~= cpre.update(i as int, self.cols_spec()[i as int]));
                self.lemma_wf_from_types(old(self));
            }
            match step {
                Ok(()) => (),
                Err(e) => {
                    proof {
                        assert(source_may_fail(
                            self.sources_spec()[i as int],
                            self.cols_spec(),
                            rows as nat,
                        ));
                        assert forall|j: int|
                            0 <= j < old(self).sources_spec().len() implies source_shape_eq(
                            #[trigger] self.sources_spec()[j],
                            old(self).sources_spec()[j],
                        ) by {}
                    }
                    return Err(e);
                },
            }
            i += 1;
        }
        Ok(())
    }

    /// Copies `src` into column `k`, beginning at row `dest_off`.
    pub fn copy_col_to(&mut self, k: usize, src: &Column, dest_off: usize)
        requires
            old(self).wf(),
            src.wf(),
            k < old(self).cols_spec().len(),
            src.dtype_spec() == old(self).cols_spec()[k as int].dtype_spec(),
            dest_off <= old(self).cols_spec()[k as int].data_spec().len(),
        ensures
            final(self).wf(),
            final(self).sources_spec() == old(self).sources_spec(),
            final(self).cols_spec().len() == old(self).cols_spec().len(),
            forall|j: int|
                0 <= j < old(self).cols_spec().len() && j != k ==> final(self).cols_spec()[j] == old(
                    self,
                ).cols_spec()[j],
            final(self).cols_spec()[k as int].name_spec() == old(self).cols_spec()[
                k as int].name_spec(),
            final(self).cols_spec()[k as int].dtype_spec() == old(self).cols_spec()[
                k as int].dtype_spec(),
            ({
                let oldd = old(self).cols_spec()[k as int].data_spec();
                let m = if src.data_spec().len() <= oldd.len() - dest_off {
                    src.data_spec().len() as int
                } else {
                    oldd.len() - dest_off
                };
                final(self).cols_spec()[k as int].data_spec() =~= oldd.take(dest_off as int)
                    + src.data_spec().take(m) + oldd.skip(dest_off + m)
            }),
    {
        let ghost cpre = self.cols_spec();
        let mut col = self.columns.remove(k);
        src.copy_to(&mut col, dest_off);
        self.columns.insert(k, col);
        proof {
            assert(self.cols_spec() =~= cpre.update(k as int, self.cols_spec()[k as int]));
            self.lemma_shape_eq_refl(old(self));
            self.lemma_wf_from_types(old(self));
        }
    }

    /// Copies the filtered rows of `src` into column `k`, beginning at
    /// row `dest_off`.
    pub fn copy_col_filtered_to(&mut self, k: usize, src: &Column, dest_off: usize, filter: &Column)
        requires
            old(self).wf(),
            src.wf(),
            filter.wf(),
            k < old(self).cols_spec().len(),
            src.dtype_spec() == old(self).cols_spec()[k as int].dtype_spec(),
            filter.dtype_spec() == TypeName::DBInt,
            filter.data_spec().len() == src.data_spec().len(),
            dest_off + crate::storage::ones(filter.data_spec()) <= old(self).cols_spec()[
                k as int].data_spec().len(),
        ensures
            final(self).wf(),
            final(self).sources_spec() == old(self).sources_spec(),
            final(self).cols_spec().len() == old(self).cols_spec().len(),
            forall|j: int|
                0 <= j < old(self).cols_spec().len() && j != k ==> final(self).cols_spec()[j] == old(
                    self,
                ).cols_spec()[j],
            final(self).cols_spec()[k as int].name_spec() == old(self).cols_spec()[
                k as int].name_spec(),
            final(self).cols_spec()[k as int].dtype_spec() == old(self).cols_spec()[
                k as int].dtype_spec(),
            ({
                let oldd = old(self).cols_spec()[k as int].data_spec();
                final(self).cols_spec()[k as int].data_spec() =~= oldd.take(dest_off as int)
                    + crate::storage::filtered_seq(src.data_spec(), filter.data_spec())
                    + oldd.skip(dest_off + crate::storage::ones(filter.data_spec()))
            }),
    {
        let ghost cpre = self.cols_spec();
        let mut col = self.columns.remove(k);
        src.copy_filtered_to(&mut col, dest_off, filter);
        self.columns.insert(k, col);
        proof {
            assert(self.cols_spec() =~= cpre.update(k as int, self.cols_spec()[k as int]));
            self.lemma_shape_eq_refl(old(self));
            self.lemma_wf_from_types(old(self));
        }
    }

    /// Well-formedness depends only on the columns' names and types and
    /// the sources, so it survives any data-only change.
    proof fn lemma_wf_from_types(&self, other: &ColumnBlock)
        requires
            other.wf(),
            self.sources_spec().len() == other.sources_spec().len(),
            forall|i: int|
                0 <= i < self.sources_spec().len() ==> source_shape_eq(
                    #[trigger] self.sources_spec()[i],
                    other.sources_spec()[i],
                ),
            self.cols_spec().len() == other.cols_spec().len(),
            self.cols_spec().len() == self.sources_spec().len(),
            forall|i: int|
                0 <= i < self.cols_spec().len() ==> (#[trigger] self.cols_spec()[i]).wf(),
            forall|i: int|
                0 <= i < self.cols_spec().len() ==> (#[trigger] self.cols_spec()[i]).name_spec()
                    == other.cols_spec()[i].name_spec(),
            forall|i: int|
                0 <= i < self.cols_spec().len() ==> (#[trigger] self.cols_spec()[i]).dtype_spec()
                    == other.cols_spec()[i].dtype_spec(),
        ensures
            self.wf(),
    {
        assert forall|i: int|
            0 <= i < self.cols_spec().len() implies source_fits(
            #[trigger] self.sources_spec()[i],
            self.cols_spec(),
            i,
        ) by {
            assert(source_fits(other.sources_spec()[i], other.cols_spec(), i));
            assert(source_shape_eq(self.sources_spec()[i], other.sources_spec()[i]));
            match self.sources_spec()[i] {
                ColumnSource::Function(f) => {
                    assert(other.sources_spec()[i] matches ColumnSource::Function(g) && g.args
                        == f.args && g.func == f.func);
                    assert(self.cols_spec()[f.args@[0] as int].dtype_spec() == other.cols_spec()[
                        f.args@[0] as int].dtype_spec());
                    if f.args@.len() == 2 {
                        assert(self.cols_spec()[f.args@[1] as int].dtype_spec()
                            == other.cols_spec()[f.args@[1] as int].dtype_spec());
                    }
                },
                _ => {},
            }
        }
    }

    /// Sources equal element-wise trivially have equal shapes.
    pub proof fn lemma_shape_eq_refl(&self, other: &ColumnBlock)
        requires
            self.sources_spec() == other.sources_spec(),
        ensures
            forall|i: int|
                0 <= i < self.sources_spec().len() ==> source_shape_eq(
                    #[trigger] self.sources_spec()[i],
                    other.sources_spec()[i],
                ),
    {
        assert forall|i: int|
            0 <= i < self.sources_spec().len() implies source_shape_eq(
            #[trigger] self.sources_spec()[i],
            other.sources_spec()[i],
        ) by {
            match self.sources_spec()[i] {
                ColumnSource::DontTouch(_) => {},
                ColumnSource::External(_) => {},
                ColumnSource::Const(_) => {},
                ColumnSource::Function(_) => {},
            }
        }
    }
}

} // verus!
