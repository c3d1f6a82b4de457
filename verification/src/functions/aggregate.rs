use vstd::prelude::*;
use crate::types::{TypeName, Val, ValV, default_val_spec};
use crate::columns::Column;
use crate::storage::{ColumnDataStorage, make_storage, ints_view};
use crate::functions::int_of;
use crate::DBResult;

verus! {

use vstd::string::*;

/// The code point of a character with an ASCII capital folded to lower
/// case.
pub open spec fn ascii_fold(c: char) -> int {
    if 65 <= (c as u32) <= 90 {
        (c as u32) + 32
    } else {
        (c as u32) as int
    }
}

/// Whether two character sequences agree up to ASCII case.
pub open spec fn fold_eq(a: Seq<char>, b: Seq<char>) -> bool {
    a.len() == b.len() && forall|i: int| 0 <= i < a.len() ==> ascii_fold(#[trigger] a[i]) == ascii_fold(b[i])
}

/// Compares two strings up to ASCII case.
pub fn fold_eq_exec(a: &str, b: &str) -> (r: bool)
    ensures
        r == fold_eq(a@, b@),
{
    let na = a.unicode_len();
    let nb = b.unicode_len();
    if na != nb {
        return false;
    }
    let mut i: usize = 0;
    while i < na
        invariant
            i <= na,
            na == a@.len(),
            na == b@.len(),
            forall|j: int| 0 <= j < i ==> ascii_fold(#[trigger] a@[j]) == ascii_fold(b@[j]),
        decreases na - i,
    {
        let ca = a.get_char(i) as u32;
        let cb = b.get_char(i) as u32;
        let fa: u32 = if 65 <= ca && ca <= 90 {
            ca + 32
        } else {
            ca
        };
        let fb: u32 = if 65 <= cb && cb <= 90 {
            cb + 32
        } else {
            cb
        };
        if fa != fb {
            return false;
        }
        i += 1;
    }
    true
}

/// Whether a function name in a query names an aggregate.
pub fn is_aggregate_function(name: &str) -> (r: bool)
    ensures
        r == (fold_eq(name@, "sum"@) || fold_eq(name@, "any"@)),
{
    fold_eq_exec(name, "sum") || fold_eq_exec(name, "any")
}

/// Keeps the last value it saw for each group: the `any` aggregate.
pub struct AnyAggrColumn {
    data: ColumnDataStorage,
}

impl AnyAggrColumn {
    pub closed spec fn data_spec(&self) -> Seq<ValV> {
        self.data@
    }

    pub closed spec fn dtype_spec(&self) -> TypeName {
        self.data.dtype()
    }

    pub fn new(t: TypeName) -> (r: AnyAggrColumn)
        ensures
            r.dtype_spec() == t,
            r.data_spec() =~= Seq::<ValV>::empty(),
    {
        AnyAggrColumn { data: make_storage(t) }
    }

    /// Opens one more group slot, holding the type's default value.
    pub fn push_empty(&mut self) -> (r: usize)
        ensures
            final(self).dtype_spec() == old(self).dtype_spec(),
            final(self).data_spec() =~= old(self).data_spec() + seq![
                default_val_spec(old(self).dtype_spec()),
            ],
            r == final(self).data_spec().len(),
    {
        self.data.push(crate::types::default_val(self.data.type_of()));
        self.data.len()
    }

    /// Overwrites group `to` with the value at `src_at` of the one source.
    pub fn append_value(&mut self, src: Vec<&Column>, src_at: usize, to: usize) -> (r: DBResult<
        (),
    >)
        requires
            src@.len() == 1,
            src@[0].wf(),
            src@[0].dtype_spec() == old(self).dtype_spec(),
            src_at < src@[0].data_spec().len(),
            to < old(self).data_spec().len(),
        ensures
            final(self).dtype_spec() == old(self).dtype_spec(),
            r is Ok,
            final(self).data_spec() =~= old(self).data_spec().update(
                to as int,
                src@[0].data_spec()[src_at as int],
            ),
    {
        proof {
            src@[0].lemma_well_typed();
        }
        let v = src[0].value_at(src_at);
        self.data.set_at(to, v);
        Ok(())
    }

    /// Moves the gathered groups into the destination column.
    pub fn finalize_to_column(&mut self, dest: &mut Column)
        requires
            old(dest).wf(),
            old(dest).dtype_spec() == old(self).dtype_spec(),
        ensures
            final(dest).wf(),
            final(dest).dtype_spec() == old(dest).dtype_spec(),
            final(dest).data_spec() == old(self).data_spec(),
            final(self).data_spec() =~= Seq::<ValV>::empty(),
            final(self).dtype_spec() == old(self).dtype_spec(),
    {
        let t = self.data.type_of();
        let mut taken = make_storage(t);
        core::mem::swap(&mut self.data, &mut taken);
        dest.set_data(taken);
    }
}

/// Sums integer values per group, wrapping on overflow.
pub struct SumAggrColumn {
    data: Vec<i64>,
}

impl SumAggrColumn {
    pub closed spec fn sums_spec(&self) -> Seq<i64> {
        self.data@
    }

    pub fn new() -> (r: SumAggrColumn)
        ensures
            r.sums_spec() =~= Seq::<i64>::empty(),
    {
        SumAggrColumn { data: Vec::new() }
    }

    /// Opens one more group slot, at zero.
    pub fn push_empty(&mut self) -> (r: usize)
        ensures
            final(self).sums_spec() =~= old(self).sums_spec() + seq![0i64],
            r == final(self).sums_spec().len(),
    {
        self.data.push(0);
        self.data.len()
    }

    /// Adds the value at `src_at` of the one source into group `to`.
    pub fn append_value(&mut self, src: Vec<&Column>, src_at: usize, to: usize) -> (r: DBResult<
        (),
    >)
        requires
            src@.len() == 1,
            src@[0].wf(),
            src@[0].dtype_spec() == TypeName::DBInt,
            src_at < src@[0].data_spec().len(),
            to < old(self).sums_spec().len(),
        ensures
            r is Ok,
            final(self).sums_spec() =~= old(self).sums_spec().update(
                to as int,
                old(self).sums_spec()[to as int].wrapping_add(
                    src@[0].data_spec()[src_at as int].as_int(),
                ),
            ),
    {
        proof {
            src@[0].lemma_well_typed();
        }
        let v = src[0].value_at(src_at);
        let x = int_of(&v);
        let cur = self.data[to];
        self.data[to] = cur.wrapping_add(x);
        Ok(())
    }

    /// Moves the gathered sums into the destination column.
    pub fn finalize_to_column(&mut self, dest: &mut Column)
        requires
            old(dest).wf(),
            old(dest).dtype_spec() == TypeName::DBInt,
        ensures
            final(dest).wf(),
            final(dest).dtype_spec() == old(dest).dtype_spec(),
            final(dest).data_spec() == ints_view(old(self).sums_spec()),
            final(self).sums_spec() =~= Seq::<i64>::empty(),
    {
        let mut taken: Vec<i64> = Vec::new();
        core::mem::swap(&mut self.data, &mut taken);
        dest.set_data(ColumnDataStorage::Ints(taken));
    }
}

/// One gathering aggregate column of either kind.
pub enum AggrColumn {
    Any(AnyAggrColumn),
    Sum(SumAggrColumn),
}

/// Builds `any` aggregate columns: the result keeps the argument's type.
pub struct AnyAggrBuilder {}

/// Builds `sum` aggregate columns over integer arguments.
pub struct SumAggrBuilder {}

/// A builder for one aggregate kind.
pub enum AggrFunctionBuilder {
    Any(AnyAggrBuilder),
    Sum(SumAggrBuilder),
}

impl AnyAggrBuilder {
    pub fn new() -> (r: AnyAggrBuilder) {
        AnyAggrBuilder {  }
    }

    pub fn new_ref() -> (r: AggrFunctionBuilder)
        ensures
            r is Any,
    {
        AggrFunctionBuilder::Any(AnyAggrBuilder::new())
    }

    pub fn result_type(&self, src: Vec<TypeName>) -> (r: DBResult<TypeName>)
        ensures
            match r {
                Ok(t) => src@.len() == 1 && t == src@[0],
                Err(_) => src@.len() != 1,
            },
    {
        if src.len() != 1 {
            return Err(String::from_str("any expects 1 argument"));
        }
        Ok(src[0])
    }

    pub fn build(&self, src: Vec<TypeName>) -> (r: DBResult<AggrColumn>)
        ensures
            match r {
                Ok(c) => src@.len() == 1 && (c matches AggrColumn::Any(a) && a.dtype_spec()
                    == src@[0]),
                Err(_) => src@.len() != 1,
            },
    {
        if src.len() != 1 {
            return Err(String::from_str("any expects 1 argument"));
        }
        Ok(AggrColumn::Any(AnyAggrColumn::new(src[0])))
    }
}

impl SumAggrBuilder {
    pub fn new() -> (r: SumAggrBuilder) {
        SumAggrBuilder {  }
    }

    pub fn new_ref() -> (r: AggrFunctionBuilder)
        ensures
            r is Sum,
    {
        AggrFunctionBuilder::Sum(SumAggrBuilder::new())
    }

    /// Sums are integer-only: the engine performs no floating-point
    /// arithmetic.
    pub fn result_type(&self, src: Vec<TypeName>) -> (r: DBResult<TypeName>)
        ensures
            match r {
                Ok(t) => src@.len() == 1 && src@[0] == TypeName::DBInt && t == TypeName::DBInt,
                Err(_) => !(src@.len() == 1 && src@[0] == TypeName::DBInt),
            },
    {
        if src.len() != 1 {
            return Err(String::from_str("sum expects 1 argument"));
        }
        if src[0] == TypeName::DBInt {
            Ok(TypeName::DBInt)
        } else {
            let mut msg = String::from_str("Wrong argument type ");
            msg.append(src[0].as_str());
            msg.append(" for sum");
            Err(msg)
        }
    }

    pub fn build(&self, src: Vec<TypeName>) -> (r: DBResult<AggrColumn>)
        ensures
            match r {
                Ok(c) => src@.len() == 1 && src@[0] == TypeName::DBInt && c is Sum,
                Err(_) => !(src@.len() == 1 && src@[0] == TypeName::DBInt),
            },
    {
        if src.len() != 1 {
            return Err(String::from_str("sum expects 1 argument"));
        }
        if src[0] == TypeName::DBInt {
            Ok(AggrColumn::Sum(SumAggrColumn::new()))
        } else {
            let mut msg = String::from_str("Wrong argument type ");
            msg.append(src[0].as_str());
            msg.append(" for sum");
            Err(msg)
        }
    }
}

/// The builder an aggregate name picks, compared up to ASCII case.
pub fn aggregate_function_builder(name: &str) -> (r: Option<AggrFunctionBuilder>)
    ensures
        match r {
            Some(b) => (fold_eq(name@, "sum"@) && b is Sum) || (fold_eq(name@, "any"@)
                && b is Any),
            None => !(fold_eq(name@, "sum"@) || fold_eq(name@, "any"@)),
        },
{
    if fold_eq_exec(name, "sum") {
        Some(SumAggrBuilder::new_ref())
    } else if fold_eq_exec(name, "any") {
        Some(AnyAggrBuilder::new_ref())
    } else {
        None
    }
}

/// A grouping stage: which columns key the groups and which aggregate
/// columns gather values; the execution of grouped queries is not wired
/// into the plan yet.
pub struct AggrProcessor {
    group_inds: Vec<usize>,
    items: Vec<(AggrColumn, Vec<usize>, usize)>,
}

impl AggrProcessor {
    pub closed spec fn group_inds_spec(&self) -> Seq<usize> {
        self.group_inds@
    }

    pub closed spec fn items_len(&self) -> int {
        self.items@.len() as int
    }

    pub fn new(group_inds: Vec<usize>) -> (r: AggrProcessor)
        ensures
            r.group_inds_spec() == group_inds@,
            r.items_len() == 0,
    {
        AggrProcessor { group_inds, items: Vec::new() }
    }

    pub fn add_item(&mut self, aggr_col: AggrColumn, srcs: Vec<usize>, dest: usize)
        ensures
            final(self).group_inds_spec() == old(self).group_inds_spec(),
            final(self).items_len() == old(self).items_len() + 1,
    {
        self.items.push((aggr_col, srcs, dest));
    }
}

} // verus!
