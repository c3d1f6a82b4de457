use vstd::prelude::*;

pub mod processor;
pub mod constructor;

use crate::blocks::{ColumnBlock, block_rows};
use crate::blocks::source_may_fail;
use crate::execute::processor::{
    ChunkedProcessor,
    FilteredAppendToOutputProcessor,
    OrderByPostProcessor,
    ProcessStatus,
    fields_ok,
    row_le,
};
use crate::DBResult;

verus! {

/// One execution step: the input block all expressions live in, the output
/// block the query's rows gather in, the driving processor, the filtered
/// append, and the optional ORDER BY pass. The pipeline is this fixed
/// driver-append-post shape rather than an open processor list: the
/// supported SQL surface never needs another arrangement. An ORDER BY key
/// that is not projected is carried into the output as an extra trailing
/// column so the sort sees post-WHERE rows; it stays visible in the
/// result block.
pub struct ExecuteStep {
    input: ColumnBlock,
    output: ColumnBlock,
    driver: ChunkedProcessor,
    append: FilteredAppendToOutputProcessor,
    post_order: Option<OrderByPostProcessor>,
}

impl ExecuteStep {
    pub closed spec fn input_spec(&self) -> ColumnBlock {
        self.input
    }

    pub closed spec fn output_spec(&self) -> ColumnBlock {
        self.output
    }

    pub closed spec fn order_fields(&self) -> Option<Seq<(usize, bool)>> {
        match self.post_order {
            Some(ob) => Some(ob.fields_spec()),
            None => None,
        }
    }

    pub closed spec fn plain_limit(&self) -> Option<usize> {
        self.append.limit_spec()
    }

    pub closed spec fn order_limit(&self) -> Option<usize> {
        match self.post_order {
            Some(ob) => ob.limit_spec(),
            None => None,
        }
    }

    /// The input column the WHERE filter reads, if the query has one.
    pub closed spec fn filter_index(&self) -> Option<usize> {
        self.append.filter_spec()
    }

    /// Which input column fills each output column.
    pub closed spec fn copy_map(&self) -> Seq<usize> {
        self.append.cols_to_copy_spec()
    }

    pub closed spec fn append_compat(&self) -> bool {
        self.append.compat(self.input, self.output)
    }

    pub closed spec fn order_fields_ok(&self) -> bool {
        match self.post_order {
            Some(ob) => fields_ok(self.output.cols_spec(), ob.fields_spec()),
            None => true,
        }
    }

    /// The step's standing shape: both blocks well formed, the append stage
    /// compatible with them, the gathered output uniform, order fields in
    /// range.
    pub open spec fn wf(&self) -> bool {
        &&& self.input_spec().wf()
        &&& self.output_spec().wf()
        &&& self.append_compat()
        &&& self.output_spec().uniform(block_rows(self.output_spec()))
        &&& self.order_fields_ok()
    }

    pub fn new(
        input: ColumnBlock,
        output: ColumnBlock,
        driver: ChunkedProcessor,
        append: FilteredAppendToOutputProcessor,
        post_order: Option<OrderByPostProcessor>,
    ) -> (r: ExecuteStep)
        requires
            input.wf(),
            output.wf(),
            append.compat(input, output),
            output.uniform(block_rows(output)),
            match post_order {
                Some(ob) => fields_ok(output.cols_spec(), ob.fields_spec()),
                None => true,
            },
        ensures
            r.wf(),
            r.input_spec() == input,
            r.output_spec() == output,
            r.plain_limit() == append.limit_spec(),
            r.order_fields() == (match post_order {
                Some(ob) => Some(ob.fields_spec()),
                None => None::<Seq<(usize, bool)>>,
            }),
            r.order_limit() == (match post_order {
                Some(ob) => ob.limit_spec(),
                None => None::<usize>,
            }),
            r.filter_index() == append.filter_spec(),
            r.copy_map() == append.cols_to_copy_spec(),
            r.sizes_pos() == driver.sizes_pos(),
            r.sizes_src() == driver.sizes_src(),
    {
        ExecuteStep { input, output, driver, append, post_order }
    }

    pub fn output(&self) -> (r: &ColumnBlock)
        ensures
            r == self.output_spec(),
    {
        &self.output
    }

    /// How many size bytes the driver still has before it.
    pub open spec fn sizes_left(&self) -> int {
        self.sizes_src().len() - self.sizes_pos()
    }

    /// How far the driver has come in the sizes stream.
    pub closed spec fn sizes_pos(&self) -> int {
        self.driver.sizes_pos()
    }

    /// The byte image of the sizes stream the driver walks.
    pub closed spec fn sizes_src(&self) -> Seq<u8> {
        self.driver.sizes_src()
    }

    /// The block size the driver pulled last.
    pub open spec fn last_pulled_size(&self) -> nat {
        vstd::bytes::spec_u32_from_le_bytes(
            self.sizes_src().subrange(self.sizes_pos() - 4, self.sizes_pos()),
        ) as nat
    }

    /// Whether appending the current block would overflow a row counter —
    /// the one failure the append stage itself can report.
    pub closed spec fn append_overflowed(&self) -> bool {
        ||| self.append.processed_spec() + self.append.add_size(self.input) > usize::MAX
        ||| block_rows(self.output) + self.append.add_size(self.input) > usize::MAX
    }

    /// The evidence a failed execution leaves behind: the block pulled
    /// last did not suit one of the input's sources (a chunk that does not
    /// parse to that many rows, or a division), or a row counter
    /// overflowed.
    pub open spec fn failure_evidence(&self) -> bool {
        ||| (self.sizes_pos() >= 4 && exists|i: int|
            0 <= i < self.input_spec().sources_spec().len() && source_may_fail(
                #[trigger] self.input_spec().sources_spec()[i],
                self.input_spec().cols_spec(),
                self.last_pulled_size(),
            ))
        ||| self.append_overflowed()
    }

    /// How many blocks the driver has pulled from the sizes stream; a
    /// LIMIT without an ORDER BY stops the drive early, so this stays
    /// small on a large table.
    pub fn blocks_read(&self) -> (r: usize)
        ensures
            r == self.sizes_pos() / 4,
    {
        self.driver.blocks_read()
    }

    /// Runs the pipeline: drive a block, append its surviving rows, repeat
    /// until the sizes stream ends or the limit short-circuits; then run
    /// the one post pass (trim, or sort-and-trim).
    pub fn execute(&mut self) -> (r: DBResult<()>)
        requires
            old(self).wf(),
        ensures
            final(self).wf(),
            final(self).order_fields() == old(self).order_fields(),
            match old(self).order_fields() {
                Some(f) => r is Ok ==> forall|x: int, y: int|
                    0 <= x < y < block_rows(final(self).output_spec()) ==> row_le(
                        final(self).output_spec().cols_spec(),
                        f,
                        x,
                        y,
                    ),
                None => true,
            },
            match old(self).plain_limit() {
                Some(l) => (r is Ok && old(self).order_fields() is None) ==> block_rows(
                    final(self).output_spec(),
                ) <= l,
                None => true,
            },
            match old(self).order_limit() {
                Some(l) => (r is Ok && old(self).order_fields() is Some) ==> block_rows(
                    final(self).output_spec(),
                ) <= l,
                None => true,
            },
            r is Err ==> final(self).failure_evidence(),
            (old(self).sizes_left() < 4 && block_rows(old(self).output_spec()) == 0) ==> r is Ok
                && block_rows(final(self).output_spec()) == 0,
    {
        loop
            invariant
                self.wf(),
                self.order_fields() == old(self).order_fields(),
                self.post_order == old(self).post_order,
                self.append.limit_spec() == old(self).append.limit_spec(),
                (old(self).sizes_left() < 4 && block_rows(old(self).output_spec()) == 0) ==> (
                self.sizes_left() == old(self).sizes_left() && block_rows(self.output_spec())
                    == 0),
            decreases self.sizes_left(),
        {
            let ghost left0 = self.sizes_left();
            let st = match self.driver.run(&mut self.input) {
                Ok(st) => st,
                Err(e) => {
                    proof {
                        assert(self.input_spec() == self.input);
                        assert(self.last_pulled_size() == vstd::bytes::spec_u32_from_le_bytes(
                            self.driver.sizes_src().subrange(
                                self.driver.sizes_pos() - 4,
                                self.driver.sizes_pos(),
                            ),
                        ) as nat);
                        assert(exists|i: int|
                            0 <= i < self.input_spec().sources_spec().len() && source_may_fail(
                                #[trigger] self.input_spec().sources_spec()[i],
                                self.input_spec().cols_spec(),
                                self.last_pulled_size(),
                            ));
                    }
                    return Err(e);
                },
            };
            match st {
                ProcessStatus::MustStop => {
                    break ;
                },
                ProcessStatus::MustGoOn => {},
            }
            let st2 = match self.append.run(&self.input, &mut self.output) {
                Ok(st2) => st2,
                Err(e) => {
                    proof {
                        assert(self.append_overflowed());
                        assert(self.failure_evidence());
                    }
                    return Err(e);
                },
            };
            proof {
                assert(self.sizes_left() < left0);
            }
            match st2 {
                ProcessStatus::MustStop => {
                    break ;
                },
                ProcessStatus::MustGoOn => {},
            }
        }
        match &mut self.post_order {
            Some(ob) => {
                let r = ob.run(&mut self.output);
                r
            },
            None => {
                let r = self.append.run_post(&mut self.output);
                r
            },
        }
    }
}

/// A compiled query: one execution step, ready to run.
pub struct Plan {
    step: ExecuteStep,
}

impl Plan {
    pub closed spec fn step_spec(&self) -> ExecuteStep {
        self.step
    }

    pub open spec fn wf(&self) -> bool {
        self.step_spec().wf()
    }

    pub fn new(step: ExecuteStep) -> (r: Plan)
        requires
            step.wf(),
        ensures
            r.wf(),
            r.step_spec() == step,
    {
        Plan { step }
    }

    pub fn execute(&mut self) -> (r: DBResult<()>)
        requires
            old(self).wf(),
        ensures
            final(self).wf(),
            match old(self).step_spec().order_fields() {
                Some(f) => r is Ok ==> forall|x: int, y: int|
                    0 <= x < y < block_rows(final(self).step_spec().output_spec()) ==> row_le(
                        final(self).step_spec().output_spec().cols_spec(),
                        f,
                        x,
                        y,
                    ),
                None => true,
            },
            r is Err ==> final(self).step_spec().failure_evidence(),
            (old(self).step_spec().sizes_left() < 4 && block_rows(
                old(self).step_spec().output_spec(),
            ) == 0) ==> r is Ok && block_rows(final(self).step_spec().output_spec()) == 0,
    {
        self.step.execute()
    }

    pub fn output(&self) -> (r: &ColumnBlock)
        ensures
            r == self.step_spec().output_spec(),
    {
        self.step.output()
    }

    /// How many blocks this plan's driver has pulled so far.
    pub fn blocks_read(&self) -> (r: usize)
        ensures
            r == self.step_spec().sizes_pos() / 4,
    {
        self.step.blocks_read()
    }

    /// Lowers one parsed SQL statement list over the database's tables:
    /// the plan is well formed, and every input column computes an
    /// expression over one of the database's tables. The caller runs the
    /// outside parser itself, keeping any parser panic on its own side.
    pub fn from_statements(db: &crate::schema::DB, stmts: Vec<sqlparser::ast::Statement>) -> (r:
        DBResult<Plan>)
        ensures
            match r {
                Ok(p) => p.wf() && crate::execute::constructor::plan_lowered_over(*db, p),
                Err(_) => true,
            },
    {
        let q = match crate::sql::query_from_statements(stmts) {
            Ok(q) => q,
            Err(e) => {
                return Err(e);
            },
        };
        crate::execute::constructor::make_plan_query(db, &q)
    }
}

} // verus!
