use vstd::prelude::*;
use crate::types::{TypeName, ValV};
use crate::columns::Column;
use crate::storage::{
    ones,
    filtered_seq,
    fit_len,
    val_cmp,
    lemma_val_cmp_eq_congruent,
    lemma_val_cmp_flip,
    lemma_val_cmp_trans,
};
use crate::blocks::{ColumnBlock, block_rows, processed, source_may_fail, source_shape_eq};
use crate::schema::BlockSizeIter;
use crate::functions::int_of;
use crate::DBResult;

verus! {

/// Whether the driving loop should continue after one processor call.
pub enum ProcessStatus {
    MustStop,
    MustGoOn,
}

/// Pulls block sizes from the sizes stream and drives the input block; one
/// call per block, stopping cleanly when the stream is exhausted.
pub struct ChunkedProcessor {
    sizes_iterator: BlockSizeIter,
}

impl ChunkedProcessor {
    pub closed spec fn sizes_src(&self) -> Seq<u8> {
        self.sizes_iterator.src_spec()
    }

    pub closed spec fn sizes_pos(&self) -> int {
        self.sizes_iterator.pos_spec()
    }

    pub fn new(sizes_iterator: BlockSizeIter) -> (r: ChunkedProcessor)
        ensures
            r.sizes_src() == sizes_iterator.src_spec(),
            r.sizes_pos() == sizes_iterator.pos_spec(),
    {
        ChunkedProcessor { sizes_iterator }
    }

    pub fn new_ref(sizes_iterator: BlockSizeIter) -> (r: ChunkedProcessor)
        ensures
            r.sizes_src() == sizes_iterator.src_spec(),
            r.sizes_pos() == sizes_iterator.pos_spec(),
    {
        ChunkedProcessor::new(sizes_iterator)
    }

    /// How many sizes the driver has consumed so far.
    pub fn blocks_read(&self) -> (r: usize)
        ensures
            r == self.sizes_pos() / 4,
    {
        self.sizes_iterator.position() / 4
    }

    /// Pulls the next block size; when one is there, processes the input
    /// block to exactly that many rows and continues, else stops.
    pub fn run(&mut self, input: &mut ColumnBlock) -> (r: DBResult<ProcessStatus>)
        requires
            old(input).wf(),
        ensures
            final(self).sizes_src() == old(self).sizes_src(),
            final(input).wf(),
            final(input).cols_spec().len() == old(input).cols_spec().len(),
            final(input).sources_spec().len() == old(input).sources_spec().len(),
            forall|i: int|
                0 <= i < old(input).cols_spec().len() ==> (
                #[trigger] final(input).cols_spec()[i]).name_spec() == old(input).cols_spec()[
                    i].name_spec() && final(input).cols_spec()[i].dtype_spec() == old(
                    input,
                ).cols_spec()[i].dtype_spec(),
            forall|i: int|
                0 <= i < old(input).sources_spec().len() ==> source_shape_eq(
                    #[trigger] final(input).sources_spec()[i],
                    old(input).sources_spec()[i],
                ),
            match r {
                Ok(ProcessStatus::MustStop) => {
                    &&& old(self).sizes_pos() + 4 > old(self).sizes_src().len()
                    &&& final(self).sizes_pos() == old(self).sizes_pos()
                    &&& *final(input) == *old(input)
                },
                Ok(ProcessStatus::MustGoOn) => {
                    &&& old(self).sizes_pos() + 4 <= old(self).sizes_src().len()
                    &&& final(self).sizes_pos() == old(self).sizes_pos() + 4
                    &&& ({
                        let size = vstd::bytes::spec_u32_from_le_bytes(
                            old(self).sizes_src().subrange(
                                old(self).sizes_pos(),
                                old(self).sizes_pos() + 4,
                            ),
                        );
                        processed(*old(input), *final(input), size as nat)
                    })
                },
                Err(_) => {
                    &&& old(self).sizes_pos() + 4 <= old(self).sizes_src().len()
                    &&& final(self).sizes_pos() == old(self).sizes_pos() + 4
                    &&& final(self).sizes_pos() >= 4
                    &&& exists|i: int|
                        0 <= i < final(input).sources_spec().len() && source_may_fail(
                            #[trigger] final(input).sources_spec()[i],
                            final(input).cols_spec(),
                            vstd::bytes::spec_u32_from_le_bytes(
                                final(self).sizes_src().subrange(
                                    final(self).sizes_pos() - 4,
                                    final(self).sizes_pos(),
                                ),
                            ) as nat,
                        )
                },
            },
    {
        let ghost pos0 = self.sizes_pos();
        match self.sizes_iterator.next() {
            Some(size) => {
                match input.process(size as usize) {
                    Ok(()) => Ok(ProcessStatus::MustGoOn),
                    Err(e) => {
                        proof {
                            assert(self.sizes_src().subrange(
                                self.sizes_pos() - 4,
                                self.sizes_pos(),
                            ) =~= self.sizes_src().subrange(pos0, pos0 + 4));
                        }
                        Err(e)
                    },
                }
            },
            None => {
                proof {
                    input.lemma_shape_eq_refl(old(input));
                }
                Ok(ProcessStatus::MustStop)
            },
        }
    }
}

/// Counts the rows of a 0/1 Int filter column that equal 1.
pub fn filter_count(c: &Column) -> (r: usize)
    requires
        c.wf(),
        c.dtype_spec() == TypeName::DBInt,
    ensures
        r == ones(c.data_spec()),
{
    proof {
        crate::storage::lemma_ones_bound(c.data_spec());
        c.lemma_well_typed();
    }
    let n = c.len();
    let mut count: usize = 0;
    let mut i: usize = 0;
    while i < n
        invariant
            i <= n,
            n == c.data_spec().len(),
            c.wf(),
            c.dtype_spec() == TypeName::DBInt,
            count == ones(c.data_spec().take(i as int)),
            count <= i,
        decreases n - i,
    {
        proof {
            c.lemma_well_typed();
            crate::storage::lemma_ones_snoc(c.data_spec().take(i + 1));
            assert(c.data_spec().take(i + 1).drop_last() =~= c.data_spec().take(i as int));
            assert(c.data_spec().take(i + 1).last() == c.data_spec()[i as int]);
        }
        let v = c.value_at(i);
        if int_of(&v) == 1 {
            proof {
                assert(c.data_spec()[i as int] == ValV::I(1i64));
            }
            count += 1;
        } else {
            proof {
                assert(c.data_spec()[i as int] != ValV::I(1i64));
            }
        }
        i += 1;
    }
    proof {
        assert(c.data_spec().take(n as int) =~= c.data_spec());
    }
    count
}

/// Appends the input's selected columns to the output, keeping only the
/// rows the filter column marks, skipping whole blocks before `offset` and
/// stopping once `limit` rows past the offset have been gathered.
pub struct FilteredAppendToOutputProcessor {
    cols_to_copy: Vec<usize>,
    filter_col_index: Option<usize>,
    offset: usize,
    limit: Option<usize>,
    rest_offset: Option<usize>,
    processed: usize,
}

impl FilteredAppendToOutputProcessor {
    pub closed spec fn cols_to_copy_spec(&self) -> Seq<usize> {
        self.cols_to_copy@
    }

    pub closed spec fn filter_spec(&self) -> Option<usize> {
        self.filter_col_index
    }

    pub closed spec fn offset_spec(&self) -> int {
        self.offset as int
    }

    pub closed spec fn limit_spec(&self) -> Option<usize> {
        self.limit
    }

    pub closed spec fn rest_offset_spec(&self) -> Option<usize> {
        self.rest_offset
    }

    pub closed spec fn processed_spec(&self) -> int {
        self.processed as int
    }

    pub fn new(
        cols_to_copy: Vec<usize>,
        filter_col_index: Option<usize>,
        offset: Option<usize>,
        limit: Option<usize>,
    ) -> (r: FilteredAppendToOutputProcessor)
        ensures
            r.cols_to_copy_spec() == cols_to_copy@,
            r.filter_spec() == filter_col_index,
            r.offset_spec() == (match offset {
                Some(o) => o as int,
                None => 0,
            }),
            r.limit_spec() == limit,
            r.rest_offset_spec() is None,
            r.processed_spec() == 0,
    {
        let off: usize = match offset {
            Some(o) => o,
            None => 0,
        };
        FilteredAppendToOutputProcessor {
            cols_to_copy,
            filter_col_index,
            offset: off,
            limit,
            rest_offset: None,
            processed: 0,
        }
    }

    pub fn new_ref(
        cols_to_copy: Vec<usize>,
        filter_col_index: Option<usize>,
        offset: Option<usize>,
        limit: Option<usize>,
    ) -> (r: FilteredAppendToOutputProcessor)
        ensures
            r.cols_to_copy_spec() == cols_to_copy@,
            r.filter_spec() == filter_col_index,
            r.offset_spec() == (match offset {
                Some(o) => o as int,
                None => 0,
            }),
            r.limit_spec() == limit,
            r.rest_offset_spec() is None,
            r.processed_spec() == 0,
    {
        FilteredAppendToOutputProcessor::new(cols_to_copy, filter_col_index, offset, limit)
    }

    /// Whether this processor can stand between these two blocks.
    pub open spec fn compat(&self, input: ColumnBlock, output: ColumnBlock) -> bool {
        &&& self.cols_to_copy_spec().len() == output.cols_spec().len()
        &&& forall|k: int|
            0 <= k < self.cols_to_copy_spec().len() ==> (#[trigger] self.cols_to_copy_spec()[k])
                < input.cols_spec().len()
        &&& forall|k: int|
            0 <= k < self.cols_to_copy_spec().len() ==> input.cols_spec()[
                #[trigger] self.cols_to_copy_spec()[k] as int].dtype_spec()
                == output.cols_spec()[k].dtype_spec()
        &&& match self.filter_spec() {
            Some(fi) => fi < input.cols_spec().len() && input.cols_spec()[
                fi as int].dtype_spec() == TypeName::DBInt,
            None => true,
        }
    }

    /// How many of the input's rows this block contributes.
    pub open spec fn add_size(&self, input: ColumnBlock) -> int {
        match self.filter_spec() {
            Some(fi) => ones(input.cols_spec()[fi as int].data_spec()),
            None => block_rows(input) as int,
        }
    }

    /// What the filter keeps of one input column in this block.
    pub open spec fn kept(&self, input: ColumnBlock, k: int) -> Seq<ValV> {
        let src = input.cols_spec()[self.cols_to_copy_spec()[k] as int].data_spec();
        match self.filter_spec() {
            Some(fi) => filtered_seq(src, input.cols_spec()[fi as int].data_spec()),
            None => src,
        }
    }

    pub fn run(&mut self, input: &ColumnBlock, output: &mut ColumnBlock) -> (r: DBResult<
        ProcessStatus,
    >)
        requires
            input.wf(),
            old(output).wf(),
            old(self).compat(*input, *old(output)),
            input.uniform(block_rows(*input)),
            old(output).uniform(block_rows(*old(output))),
        ensures
            final(output).wf(),
            final(self).cols_to_copy_spec() == old(self).cols_to_copy_spec(),
            final(self).filter_spec() == old(self).filter_spec(),
            final(self).offset_spec() == old(self).offset_spec(),
            final(self).limit_spec() == old(self).limit_spec(),
            final(output).cols_spec().len() == old(output).cols_spec().len(),
            final(output).sources_spec() == old(output).sources_spec(),
            forall|k: int|
                0 <= k < old(output).cols_spec().len() ==> (
                #[trigger] final(output).cols_spec()[k]).name_spec() == old(output).cols_spec()[
                    k].name_spec() && final(output).cols_spec()[k].dtype_spec() == old(
                    output,
                ).cols_spec()[k].dtype_spec(),
            old(output).uniform(block_rows(*old(output))) ==> final(output).uniform(
                block_rows(*final(output)),
            ),
            match r {
                Ok(ProcessStatus::MustStop) => {
                    &&& old(self).limit_spec() matches Some(l) && old(self).processed_spec()
                        >= l + old(self).offset_spec()
                    &&& *final(self) == *old(self)
                    &&& *final(output) == *old(output)
                },
                Ok(ProcessStatus::MustGoOn) => {
                    &&& !(old(self).limit_spec() matches Some(l) && old(self).processed_spec()
                        >= l + old(self).offset_spec())
                    &&& final(self).processed_spec() == old(self).processed_spec() + old(
                        self,
                    ).add_size(*input)
                    &&& if old(self).processed_spec() + old(self).add_size(*input) <= old(
                        self,
                    ).offset_spec() {
                        *final(output) == *old(output) && final(self).rest_offset_spec() == old(
                            self,
                        ).rest_offset_spec()
                    } else {
                        &&& final(self).rest_offset_spec() == (match old(self).rest_offset_spec() {
                            Some(ro) => Some(ro),
                            None => Some(
                                (if old(self).offset_spec() >= old(self).processed_spec() {
                                    old(self).offset_spec() - old(self).processed_spec()
                                } else {
                                    0
                                }) as usize,
                            ),
                        })
                        &&& forall|k: int|
                            0 <= k < old(output).cols_spec().len() ==> (
                            #[trigger] final(output).cols_spec()[k]).data_spec() == old(
                                output,
                            ).cols_spec()[k].data_spec() + old(self).kept(*input, k)
                    }
                },
                Err(_) => {
                    &&& *final(output) == *old(output)
                    &&& *final(self) == *old(self)
                    &&& old(self).processed_spec() + old(self).add_size(*input) > usize::MAX
                        || block_rows(*old(output)) + old(self).add_size(*input) > usize::MAX
                },
            },
    {
        if let Some(l) = self.limit {
            let reached: bool = match l.checked_add(self.offset) {
                Some(s) => self.processed >= s,
                None => false,
            };
            if reached {
                return Ok(ProcessStatus::MustStop);
            }
        }
        let add: usize = match self.filter_col_index {
            Some(fi) => filter_count(input.col_at(fi)),
            None => input.rows_len(),
        };
        proof {
            assert(add as int == self.add_size(*input)) by {
                if self.filter_col_index is Some {
                } else {
                }
            }
        }
        let p2: usize = match self.processed.checked_add(add) {
            Some(p2) => p2,
            None => {
                return Err(String::from_str("row counter overflow"));
            },
        };
        if p2 <= self.offset {
            self.processed = p2;
            return Ok(ProcessStatus::MustGoOn);
        }
        let out_rows = output.rows_len();
        let new_rows: usize = match out_rows.checked_add(add) {
            Some(nr) => nr,
            None => {
                return Err(String::from_str("output too large"));
            },
        };
        if self.rest_offset.is_none() {
            let ro: usize = if self.offset >= self.processed {
                self.offset - self.processed
            } else {
                0
            };
            self.rest_offset = Some(ro);
        }
        proof {
            match self.filter_col_index {
                Some(fi) => {
                    crate::storage::lemma_ones_bound(input.cols_spec()[fi as int].data_spec());
                },
                None => {},
            }
        }
        output.resize(new_rows);
        let n_out = self.cols_to_copy.len();
        let mut k: usize = 0;
        while k < n_out
            invariant
                k <= n_out,
                n_out == self.cols_to_copy_spec().len(),
                input.wf(),
                output.wf(),
                input.uniform(block_rows(*input)),
                self.compat(*input, *old(output)),
                output.cols_spec().len() == old(output).cols_spec().len(),
                output.sources_spec() == old(output).sources_spec(),
                forall|j: int|
                    0 <= j < output.cols_spec().len() ==> (
                    #[trigger] output.cols_spec()[j]).name_spec() == old(output).cols_spec()[
                        j].name_spec() && output.cols_spec()[j].dtype_spec() == old(
                        output,
                    ).cols_spec()[j].dtype_spec(),
                out_rows == block_rows(*old(output)),
                old(output).uniform(block_rows(*old(output))),
                new_rows == out_rows + self.add_size(*input),
                forall|j: int|
                    0 <= j < k ==> (#[trigger] output.cols_spec()[j]).data_spec() == old(
                        output,
                    ).cols_spec()[j].data_spec() + self.kept(*input, j),
                forall|j: int|
                    k <= j < n_out ==> (#[trigger] output.cols_spec()[j]).data_spec()
                        == crate::storage::resize_spec(
                        old(output).cols_spec()[j].data_spec(),
                        new_rows as int,
                        crate::types::default_val_spec(old(output).cols_spec()[j].dtype_spec()),
                    ),
            decreases n_out - k,
        {
            let ci = self.cols_to_copy[k];
            let src = input.col_at(ci);
            proof {
                assert(src.data_spec().len() == block_rows(*input));
                match self.filter_spec() {
                    Some(fi) => {
                        crate::storage::lemma_filtered_len(
                            src.data_spec(),
                            input.cols_spec()[fi as int].data_spec(),
                        );
                        crate::storage::lemma_ones_bound(
                            input.cols_spec()[fi as int].data_spec(),
                        );
                    },
                    None => {},
                }
            }
            match self.filter_col_index {
                Some(fi) => {
                    let filter = input.col_at(fi);
                    output.copy_col_filtered_to(k, src, out_rows, filter);
                },
                None => {
                    output.copy_col_to(k, src, out_rows);
                },
            }
            proof {
                let oldk = old(output).cols_spec()[k as int].data_spec();
                let resized = crate::storage::resize_spec(
                    oldk,
                    new_rows as int,
                    crate::types::default_val_spec(old(output).cols_spec()[k as int].dtype_spec()),
                );
                assert(resized.take(out_rows as int) =~= oldk);
                assert(output.cols_spec()[k as int].data_spec() =~= oldk + self.kept(
                    *input,
                    k as int,
                ));
            }
            k += 1;
        }
        self.processed = p2;
        proof {
            assert forall|j: int|
                0 <= j < output.cols_spec().len() implies (
            #[trigger] output.cols_spec()[j]).data_spec().len() == out_rows + self.add_size(
                *input,
            ) by {
                match self.filter_spec() {
                    Some(fi) => {
                        crate::storage::lemma_filtered_len(
                            input.cols_spec()[self.cols_to_copy_spec()[j] as int].data_spec(),
                            input.cols_spec()[fi as int].data_spec(),
                        );
                    },
                    None => {},
                }
            }
        }
        Ok(ProcessStatus::MustGoOn)
    }

    /// The once-after-loop pass: trims the partially-skipped prefix and any
    /// overshoot past the limit.
    pub fn run_post(&mut self, output: &mut ColumnBlock) -> (r: DBResult<()>)
        requires
            old(output).wf(),
            old(output).uniform(block_rows(*old(output))),
        ensures
            final(output).wf(),
            *final(self) == *old(self),
            r is Ok,
            final(output).uniform(block_rows(*final(output))),
            block_rows(*old(output)) == 0 ==> block_rows(*final(output)) == 0,
            final(output).sources_spec() == old(output).sources_spec(),
            forall|j: int|
                0 <= j < old(output).cols_spec().len() ==> (
                #[trigger] final(output).cols_spec()[j]).name_spec() == old(output).cols_spec()[
                    j].name_spec() && final(output).cols_spec()[j].dtype_spec() == old(
                    output,
                ).cols_spec()[j].dtype_spec(),
            ({
                let rows = block_rows(*old(output)) as int;
                let ro = match old(self).rest_offset_spec() {
                    Some(v) => v as int,
                    None => 0,
                };
                let off = if ro <= rows {
                    ro
                } else {
                    rows
                };
                &&& final(output).cols_spec().len() == old(output).cols_spec().len()
                &&& forall|j: int|
                    0 <= j < old(output).cols_spec().len() ==> (
                    #[trigger] final(output).cols_spec()[j]).data_spec() == old(
                        output,
                    ).cols_spec()[j].data_spec().subrange(
                        off,
                        off + fit_len(rows, off, old(self).limit_spec()),
                    )
            }),
    {
        let rows = output.rows_len();
        let ro: usize = match self.rest_offset {
            Some(v) => v,
            None => 0,
        };
        let off: usize = if ro <= rows {
            ro
        } else {
            rows
        };
        output.fit_offset_limit(off, self.limit);
        Ok(())
    }
}

// ------------------------------------------------------------------
// ORDER BY: a once-after-loop sort of the gathered output rows.
// ------------------------------------------------------------------

/// The lexicographic comparison of rows `a` and `b` under the ordered
/// field list; a descending field inverts its comparison.
pub open spec fn row_cmp(
    cols: Seq<Column>,
    fields: Seq<(usize, bool)>,
    a: int,
    b: int,
) -> core::cmp::Ordering
    decreases fields.len(),
{
    if fields.len() == 0 {
        core::cmp::Ordering::Equal
    } else {
        let ci = fields[0].0 as int;
        let va = cols[ci].data_spec()[a];
        let vb = cols[ci].data_spec()[b];
        let c = if fields[0].1 {
            val_cmp(va, vb)
        } else {
            val_cmp(vb, va)
        };
        if c is Equal {
            row_cmp(cols, fields.drop_first(), a, b)
        } else {
            c
        }
    }
}

/// Row `a` sorts no later than row `b`.
pub open spec fn row_le(cols: Seq<Column>, fields: Seq<(usize, bool)>, a: int, b: int) -> bool {
    !(row_cmp(cols, fields, a, b) is Greater)
}

pub open spec fn fields_ok(cols: Seq<Column>, fields: Seq<(usize, bool)>) -> bool {
    forall|k: int| 0 <= k < fields.len() ==> ((#[trigger] fields[k]).0 as int) < cols.len()
}

/// Swapping the rows mirrors the comparison.
pub proof fn lemma_row_cmp_flip(cols: Seq<Column>, fields: Seq<(usize, bool)>, a: int, b: int)
    ensures
        row_cmp(cols, fields, a, b) is Less <==> row_cmp(cols, fields, b, a) is Greater,
        row_cmp(cols, fields, a, b) is Equal <==> row_cmp(cols, fields, b, a) is Equal,
    decreases fields.len(),
{
    if fields.len() > 0 {
        let ci = fields[0].0 as int;
        lemma_val_cmp_flip(cols[ci].data_spec()[a], cols[ci].data_spec()[b]);
        lemma_val_cmp_flip(cols[ci].data_spec()[b], cols[ci].data_spec()[a]);
        lemma_row_cmp_flip(cols, fields.drop_first(), a, b);
    }
}

/// The row order is total.
pub proof fn lemma_row_le_total(cols: Seq<Column>, fields: Seq<(usize, bool)>, a: int, b: int)
    ensures
        row_le(cols, fields, a, b) || row_le(cols, fields, b, a),
{
    lemma_row_cmp_flip(cols, fields, a, b);
    lemma_row_cmp_flip(cols, fields, b, a);
}

/// The row order is transitive on rows of a well-formed uniform block.
pub proof fn lemma_row_le_trans(
    cols: Seq<Column>,
    fields: Seq<(usize, bool)>,
    n: nat,
    a: int,
    b: int,
    c: int,
)
    requires
        fields_ok(cols, fields),
        forall|i: int| 0 <= i < cols.len() ==> (#[trigger] cols[i]).wf(),
        forall|i: int| 0 <= i < cols.len() ==> (#[trigger] cols[i]).data_spec().len() == n,
        0 <= a < n,
        0 <= b < n,
        0 <= c < n,
        row_le(cols, fields, a, b),
        row_le(cols, fields, b, c),
    ensures
        row_le(cols, fields, a, c),
    decreases fields.len(),
{
    if fields.len() == 0 {
    } else {
        let ci = fields[0].0 as int;
        cols[ci].lemma_well_typed();
        let va = cols[ci].data_spec()[a];
        let vb = cols[ci].data_spec()[b];
        let vc = cols[ci].data_spec()[c];
        let hab = if fields[0].1 {
            val_cmp(va, vb)
        } else {
            val_cmp(vb, va)
        };
        let hbc = if fields[0].1 {
            val_cmp(vb, vc)
        } else {
            val_cmp(vc, vb)
        };
        if hab is Greater {
            assert(false);
        } else if hab is Less {
            if hbc is Less {
                if fields[0].1 {
                    lemma_val_cmp_trans(va, vb, vc);
                } else {
                    lemma_val_cmp_trans(vc, vb, va);
                }
            } else if hbc is Equal {
                if fields[0].1 {
                    lemma_val_cmp_eq_congruent(vb, vc, va);
                } else {
                    lemma_val_cmp_eq_congruent(vc, vb, va);
                }
            } else {
                assert(false);
            }
        } else {
            if fields[0].1 {
                lemma_val_cmp_eq_congruent(va, vb, vc);
            } else {
                lemma_val_cmp_eq_congruent(vb, va, vc);
            }
            if hbc is Less {
            } else if hbc is Equal {
                lemma_row_le_trans(cols, fields.drop_first(), n, a, b, c);
            } else {
                assert(false);
            }
        }
    }
}

/// Rows of a permuted block compare as the picked rows of the original.
pub proof fn lemma_row_cmp_reindex(
    oldcols: Seq<Column>,
    newcols: Seq<Column>,
    fields: Seq<(usize, bool)>,
    sp: Seq<usize>,
    x: int,
    y: int,
)
    requires
        fields_ok(oldcols, fields),
        newcols.len() == oldcols.len(),
        0 <= x < sp.len(),
        0 <= y < sp.len(),
        forall|ci: int|
            0 <= ci < oldcols.len() ==> (#[trigger] newcols[ci]).data_spec() == Seq::new(
                sp.len(),
                |k: int| oldcols[ci].data_spec()[sp[k] as int],
            ),
    ensures
        row_cmp(newcols, fields, x, y) == row_cmp(oldcols, fields, sp[x] as int, sp[y] as int),
    decreases fields.len(),
{
    if fields.len() > 0 {
        lemma_row_cmp_reindex(oldcols, newcols, fields.drop_first(), sp, x, y);
    }
}

/// Sorts the row indices `[0, n)` of a block under the field list.
fn sort_perm(block: &ColumnBlock, fields: &Vec<(usize, bool)>, n: usize) -> (perm: Vec<usize>)
    requires
        block.wf(),
        block.uniform(n as nat),
        fields_ok(block.cols_spec(), fields@),
    ensures
        perm@.len() == n,
        forall|k: int| 0 <= k < n ==> (#[trigger] perm@[k]) < n,
        forall|x: int, y: int|
            0 <= x < y < n ==> #[trigger] perm@[x] != #[trigger] perm@[y],
        forall|x: int, y: int|
            0 <= x < y < n ==> row_le(
                block.cols_spec(),
                fields@,
                #[trigger] perm@[x] as int,
                #[trigger] perm@[y] as int,
            ),
{
    let mut perm: Vec<usize> = Vec::new();
    let mut k: usize = 0;
    while k < n
        invariant
            k <= n,
            perm@.len() == k,
            forall|m: int| 0 <= m < k ==> #[trigger] perm@[m] == m,
        decreases n - k,
    {
        perm.push(k);
        k += 1;
    }
    let mut i: usize = 1;
    while i < n
        invariant
            1 <= i <= n || (n == 0 && i == 1),
            perm@.len() == n,
            block.wf(),
            block.uniform(n as nat),
            fields_ok(block.cols_spec(), fields@),
            forall|m: int| 0 <= m < n ==> (#[trigger] perm@[m]) < n,
            forall|x: int, y: int|
                0 <= x < y < n ==> #[trigger] perm@[x] != #[trigger] perm@[y],
            forall|x: int, y: int|
                0 <= x < y < i && y < n ==> row_le(
                    block.cols_spec(),
                    fields@,
                    #[trigger] perm@[x] as int,
                    #[trigger] perm@[y] as int,
                ),
        decreases n - i,
    {
        let mut j: usize = i;
        while j > 0 && rows_gt(block, fields, perm[j - 1], perm[j])
            invariant
                j <= i < n,
                perm@.len() == n,
                block.wf(),
                block.uniform(n as nat),
                fields_ok(block.cols_spec(), fields@),
                forall|m: int| 0 <= m < n ==> (#[trigger] perm@[m]) < n,
                forall|x: int, y: int|
                    0 <= x < y < n ==> #[trigger] perm@[x] != #[trigger] perm@[y],
                forall|x: int, y: int|
                    0 <= x < y <= i && y != j ==> row_le(
                        block.cols_spec(),
                        fields@,
                        #[trigger] perm@[x] as int,
                        #[trigger] perm@[y] as int,
                    ),
                forall|y: int|
                    j < y <= i ==> row_le(
                        block.cols_spec(),
                        fields@,
                        perm@[j as int] as int,
                        #[trigger] perm@[y] as int,
                    ),
            decreases j,
        {
            let a = perm[j - 1];
            let b = perm[j];
            perm[j - 1] = b;
            perm[j] = a;
            proof {
                lemma_row_le_total(block.cols_spec(), fields@, a as int, b as int);
                assert forall|x: int, y: int|
                    0 <= x < y <= i && y != j - 1 implies row_le(
                    block.cols_spec(),
                    fields@,
                    #[trigger] perm@[x] as int,
                    #[trigger] perm@[y] as int,
                ) by {
                    lemma_row_le_total(block.cols_spec(), fields@, a as int, b as int);
                }
            }
            j -= 1;
        }
        proof {
            let cols = block.cols_spec();
            let f = fields@;
            assert forall|x: int, y: int|
                0 <= x < y < i + 1 implies row_le(
                cols,
                f,
                #[trigger] perm@[x] as int,
                #[trigger] perm@[y] as int,
            ) by {
                if y == j {
                    if j > 0 {
                        assert(row_le(cols, f, perm@[j - 1] as int, perm@[j as int] as int));
                        if x < j - 1 {
                            lemma_row_le_trans(
                                cols,
                                f,
                                n as nat,
                                perm@[x] as int,
                                perm@[j - 1] as int,
                                perm@[j as int] as int,
                            );
                        }
                    }
                }
            }
        }
        i += 1;
    }
    perm
}

/// Whether row `a` sorts strictly after row `b`.
fn rows_gt(block: &ColumnBlock, fields: &Vec<(usize, bool)>, a: usize, b: usize) -> (r: bool)
    requires
        block.wf(),
        fields_ok(block.cols_spec(), fields@),
        forall|ci: int|
            0 <= ci < block.cols_spec().len() ==> a < (
            #[trigger] block.cols_spec()[ci]).data_spec().len() && b < block.cols_spec()[
                ci].data_spec().len(),
    ensures
        r == (row_cmp(block.cols_spec(), fields@, a as int, b as int) is Greater),
{
    match cmp_rows(block, fields, a, b) {
        core::cmp::Ordering::Greater => true,
        _ => false,
    }
}

/// Lexicographic comparison of two rows of a block.
pub fn cmp_rows(block: &ColumnBlock, fields: &Vec<(usize, bool)>, a: usize, b: usize) -> (r:
    core::cmp::Ordering)
    requires
        block.wf(),
        fields_ok(block.cols_spec(), fields@),
        forall|ci: int|
            0 <= ci < block.cols_spec().len() ==> a < (
            #[trigger] block.cols_spec()[ci]).data_spec().len() && b < block.cols_spec()[
                ci].data_spec().len(),
    ensures
        r == row_cmp(block.cols_spec(), fields@, a as int, b as int),
{
    let nf = fields.len();
    proof {
        assert(fields@.skip(0) =~= fields@);
    }
    let mut k: usize = 0;
    while k < nf
        invariant
            k <= nf,
            nf == fields@.len(),
            block.wf(),
            fields_ok(block.cols_spec(), fields@),
            forall|ci: int|
                0 <= ci < block.cols_spec().len() ==> a < (
                #[trigger] block.cols_spec()[ci]).data_spec().len() && b < block.cols_spec()[
                    ci].data_spec().len(),
            row_cmp(block.cols_spec(), fields@, a as int, b as int) == row_cmp(
                block.cols_spec(),
                fields@.skip(k as int),
                a as int,
                b as int,
            ),
        decreases nf - k,
    {
        let (ci, asc) = fields[k];
        let col = block.col_at(ci);
        let c = if asc {
            col.elems_cmp(a, b)
        } else {
            col.elems_cmp(b, a)
        };
        proof {
            assert(fields@.skip(k as int).len() > 0);
            assert(fields@.skip(k as int)[0] == fields@[k as int]);
            assert(fields@.skip(k as int).drop_first() =~= fields@.skip(k + 1));
        }
        match c {
            core::cmp::Ordering::Equal => (),
            other => {
                return other;
            },
        }
        k += 1;
    }
    proof {
        assert(fields@.skip(nf as int).len() == 0);
    }
    core::cmp::Ordering::Equal
}

/// Sorts the output rows under the declared key, then keeps the window
/// `[offset, offset + limit)` of the sorted order.
pub struct OrderByPostProcessor {
    fields: Vec<(usize, bool)>,
    offset: usize,
    limit: Option<usize>,
}

impl OrderByPostProcessor {
    pub closed spec fn fields_spec(&self) -> Seq<(usize, bool)> {
        self.fields@
    }

    pub closed spec fn offset_spec(&self) -> int {
        self.offset as int
    }

    pub closed spec fn limit_spec(&self) -> Option<usize> {
        self.limit
    }

    pub fn new(fields: Vec<(usize, bool)>, offset: Option<usize>, limit: Option<usize>) -> (r:
        OrderByPostProcessor)
        ensures
            r.fields_spec() == fields@,
            r.offset_spec() == (match offset {
                Some(o) => o as int,
                None => 0,
            }),
            r.limit_spec() == limit,
    {
        let off: usize = match offset {
            Some(o) => o,
            None => 0,
        };
        OrderByPostProcessor { fields, offset: off, limit }
    }

    pub fn new_ref(fields: Vec<(usize, bool)>, offset: Option<usize>, limit: Option<usize>) -> (r:
        OrderByPostProcessor)
        ensures
            r.fields_spec() == fields@,
            r.offset_spec() == (match offset {
                Some(o) => o as int,
                None => 0,
            }),
            r.limit_spec() == limit,
    {
        OrderByPostProcessor::new(fields, offset, limit)
    }

    /// Lexicographic comparison of two output rows under this key.
    pub fn cmp_func(&self, a: usize, b: usize, block: &ColumnBlock) -> (r: core::cmp::Ordering)
        requires
            block.wf(),
            fields_ok(block.cols_spec(), self.fields_spec()),
            forall|ci: int|
                0 <= ci < block.cols_spec().len() ==> a < (
                #[trigger] block.cols_spec()[ci]).data_spec().len() && b < block.cols_spec()[
                    ci].data_spec().len(),
        ensures
            r == row_cmp(block.cols_spec(), self.fields_spec(), a as int, b as int),
    {
        cmp_rows(block, &self.fields, a, b)
    }

    /// The row count that survives the window `[offset, offset + limit)`.
    pub open spec fn window_len(&self, n: int) -> int {
        if self.offset_spec() <= n {
            fit_len(n, self.offset_spec(), self.limit_spec())
        } else {
            0
        }
    }

    /// Where the kept window begins in the sorted order of all rows.
    pub open spec fn window_start(&self, n: int) -> int {
        if self.offset_spec() <= n {
            self.offset_spec()
        } else {
            n
        }
    }

    /// Sorts and trims the output. Afterwards the rows are sorted under the
    /// key, exactly `min(limit, rows - offset)` of them remain, and every
    /// row is one of the old rows.
    pub fn run(&mut self, output: &mut ColumnBlock) -> (r: DBResult<()>)
        requires
            old(output).wf(),
            old(output).uniform(block_rows(*old(output))),
            fields_ok(old(output).cols_spec(), old(self).fields_spec()),
        ensures
            *final(self) == *old(self),
            final(output).wf(),
            r is Ok,
            final(output).cols_spec().len() == old(output).cols_spec().len(),
            final(output).sources_spec() == old(output).sources_spec(),
            forall|j: int|
                0 <= j < old(output).cols_spec().len() ==> (
                #[trigger] final(output).cols_spec()[j]).name_spec() == old(output).cols_spec()[
                    j].name_spec() && final(output).cols_spec()[j].dtype_spec() == old(
                    output,
                ).cols_spec()[j].dtype_spec(),
            final(output).uniform(old(self).window_len(block_rows(*old(output)) as int) as nat),
            block_rows(*old(output)) == 0 ==> block_rows(*final(output)) == 0,
            forall|x: int, y: int|
                0 <= x < y < old(self).window_len(block_rows(*old(output)) as int) ==> row_le(
                    final(output).cols_spec(),
                    old(self).fields_spec(),
                    x,
                    y,
                ),
            exists|p: Seq<usize>|
                {
                    let n = block_rows(*old(output)) as int;
                    let start = old(self).window_start(n);
                    let w = old(self).window_len(n);
                    &&& #[trigger] p.len() == n
                    &&& (forall|k: int| 0 <= k < n ==> (#[trigger] p[k]) < n)
                    &&& (forall|x: int, y: int| 0 <= x < y < n ==> #[trigger] p[x] != #[trigger] p[y])
                    &&& (forall|x: int, y: int|
                        0 <= x < y < n ==> row_le(
                            old(output).cols_spec(),
                            old(self).fields_spec(),
                            #[trigger] p[x] as int,
                            #[trigger] p[y] as int,
                        ))
                    &&& (forall|ci: int|
                        0 <= ci < old(output).cols_spec().len() ==> (
                        #[trigger] final(output).cols_spec()[ci]).data_spec() == Seq::new(
                            w as nat,
                            |k: int| old(output).cols_spec()[ci].data_spec()[p[start + k] as int],
                        ))
                },
    {
        let n = output.rows_len();
        proof {
            assert(n == block_rows(*output));
        }
        let perm = sort_perm(output, &self.fields, n);
        let to: usize = match self.limit {
            Some(l) => {
                match l.checked_add(self.offset) {
                    Some(s) => if s <= n {
                        s
                    } else {
                        n
                    },
                    None => n,
                }
            },
            None => n,
        };
        let from: usize = if self.offset <= to {
            self.offset
        } else {
            to
        };
        let mut slice: Vec<usize> = Vec::new();
        let mut k: usize = from;
        while k < to
            invariant
                from <= k <= to,
                to <= n,
                perm@.len() == n,
                forall|m: int| 0 <= m < n ==> (#[trigger] perm@[m]) < n,
                slice@.len() == k - from,
                forall|m: int| 0 <= m < k - from ==> #[trigger] slice@[m] == perm@[from + m],
            decreases to - k,
        {
            slice.push(perm[k]);
            k += 1;
        }
        proof {
            assert(slice@.len() == self.window_len(n as int));
        }
        output.permute(&slice);
        proof {
            let oldc = old(output).cols_spec();
            let newc = output.cols_spec();
            let w = self.window_len(n as int);
            assert forall|x: int, y: int| 0 <= x < y < w implies row_le(
                newc,
                self.fields_spec(),
                x,
                y,
            ) by {
                lemma_row_cmp_reindex(oldc, newc, self.fields_spec(), slice@, x, y);
                assert(slice@[x] == perm@[from + x]);
                assert(slice@[y] == perm@[from + y]);
                assert(row_le(oldc, self.fields_spec(), perm@[from + x] as int, perm@[from + y] as int));
            }
            assert(exists|p: Seq<usize>|
                {
                    let n0 = block_rows(*old(output)) as int;
                    let start = self.window_start(n0);
                    let w0 = self.window_len(n0);
                    &&& #[trigger] p.len() == n0
                    &&& (forall|k: int| 0 <= k < n0 ==> (#[trigger] p[k]) < n0)
                    &&& (forall|x: int, y: int|
                        0 <= x < y < n0 ==> #[trigger] p[x] != #[trigger] p[y])
                    &&& (forall|x: int, y: int|
                        0 <= x < y < n0 ==> row_le(
                            old(output).cols_spec(),
                            self.fields_spec(),
                            #[trigger] p[x] as int,
                            #[trigger] p[y] as int,
                        ))
                    &&& (forall|ci: int|
                        0 <= ci < old(output).cols_spec().len() ==> (
                        #[trigger] output.cols_spec()[ci]).data_spec() == Seq::new(
                            w0 as nat,
                            |k: int| old(output).cols_spec()[ci].data_spec()[p[start + k] as int],
                        ))
                }) by {
                let p = perm@;
                let n0 = block_rows(*old(output)) as int;
                let start = self.window_start(n0);
                let w0 = self.window_len(n0);
                assert(start == from as int);
                assert(w0 == to - from);
                assert forall|ci: int| 0 <= ci < old(output).cols_spec().len() implies (
                #[trigger] output.cols_spec()[ci]).data_spec() == Seq::new(
                    w0 as nat,
                    |k: int| old(output).cols_spec()[ci].data_spec()[p[start + k] as int],
                ) by {
                    assert(output.cols_spec()[ci].data_spec() =~= Seq::new(
                        w0 as nat,
                        |k: int| old(output).cols_spec()[ci].data_spec()[p[start + k] as int],
                    ));
                }
            }
        }
        Ok(())
    }
}

} // verus!
