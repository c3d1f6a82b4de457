use vstd::prelude::*;
use crate::types::{TypeName, Val, ValV};
use crate::columns::{Column, ColumnHeader};
use crate::schema::{DB, Table, table_size_iterator};
use crate::blocks::{ColumnBlock, ColumnSource, DontTouchSource, ExternalSource, ConstValueSource,
    FunctionSource, block_rows};
use crate::functions::{OpKind, RegFunBuilder, op_accepts};
use crate::sql::{SqlExpr, SqlItem, SqlOp, SqlQuery, expr_name, expr_name_spec, parse_i64,
    all_digits, digits_value};
use crate::execute::processor::{ChunkedProcessor, FilteredAppendToOutputProcessor,
    OrderByPostProcessor};
use crate::execute::{ExecuteStep, Plan};
use crate::DBResult;

verus! {

use vstd::slice::slice_to_vec;

/// The operator kind a query operator lowers to.
pub open spec fn sql_op_kind(op: SqlOp) -> OpKind {
    match op {
        SqlOp::Plus => OpKind::Plus,
        SqlOp::Minus => OpKind::Minus,
        SqlOp::Multiply => OpKind::Multiply,
        SqlOp::Divide => OpKind::Divide,
        SqlOp::Eq => OpKind::Eq,
        SqlOp::NotEq => OpKind::NotEq,
        SqlOp::Lt => OpKind::Lt,
        SqlOp::LtEq => OpKind::LtEq,
        SqlOp::Gt => OpKind::Gt,
        SqlOp::GtEq => OpKind::GtEq,
        SqlOp::And => OpKind::And,
        SqlOp::Or => OpKind::Or,
    }
}

pub fn op_kind_of(op: SqlOp) -> (r: OpKind)
    ensures
        r == sql_op_kind(op),
        r != OpKind::Not,
{
    match op {
        SqlOp::Plus => OpKind::Plus,
        SqlOp::Minus => OpKind::Minus,
        SqlOp::Multiply => OpKind::Multiply,
        SqlOp::Divide => OpKind::Divide,
        SqlOp::Eq => OpKind::Eq,
        SqlOp::NotEq => OpKind::NotEq,
        SqlOp::Lt => OpKind::Lt,
        SqlOp::LtEq => OpKind::LtEq,
        SqlOp::Gt => OpKind::Gt,
        SqlOp::GtEq => OpKind::GtEq,
        SqlOp::And => OpKind::And,
        SqlOp::Or => OpKind::Or,
    }
}

/// How the column at `i` of a block lowered over table `t` computes the
/// expression `e`. Operand columns are identified by their stringified
/// names, exactly as the memoization of the lowering identifies them.
pub open spec fn lowered_col(
    t: Table,
    cols: Seq<Column>,
    srcs: Seq<ColumnSource>,
    e: SqlExpr,
    i: int,
) -> bool
    decreases e,
{
    match e {
        SqlExpr::Nested(x) => lowered_col(t, cols, srcs, *x, i),
        SqlExpr::Ident(s) => {
            &&& cols[i].name_spec() == s@
            &&& srcs[i] matches ColumnSource::External(ex) && exists|ci: int|
                0 <= ci < t.schema_headers().len() && (
                #[trigger] t.schema_headers()[ci]).name_spec() == s@ && ex.reader.dtype_spec()
                    == t.schema_headers()[ci].dtype_spec() && ex.reader.src_spec()
                    == t.col_bytes_spec(ci) && ex.reader.pos_spec() == 0 && cols[i].dtype_spec()
                    == t.schema_headers()[ci].dtype_spec()
        },
        SqlExpr::Number(n) => {
            &&& cols[i].name_spec() == n@
            &&& all_digits(n@) && n@.len() > 0 && digits_value(n@) <= i64::MAX
            &&& srcs[i] matches ColumnSource::Const(c) && c.value@ == ValV::I(
                digits_value(n@) as i64,
            )
            &&& cols[i].dtype_spec() == TypeName::DBInt
        },
        SqlExpr::StringLit(s) => {
            &&& cols[i].name_spec() == expr_name_spec(e)
            &&& srcs[i] matches ColumnSource::Const(c) && c.value@ == ValV::S(s@)
            &&& cols[i].dtype_spec() == TypeName::DBString
        },
        SqlExpr::Binary(op, l, r) => {
            &&& cols[i].name_spec() == expr_name_spec(e)
            &&& srcs[i] matches ColumnSource::Function(f) && ({
                &&& f.func.op_spec() == sql_op_kind(op)
                &&& f.func.wf()
                &&& f.args@.len() == 2
                &&& (f.args@[0] as int) < i && (f.args@[1] as int) < i
                &&& 0 <= f.args@[0] as int && 0 <= f.args@[1] as int
                &&& cols[f.args@[0] as int].name_spec() == expr_name_spec(*l)
                &&& cols[f.args@[1] as int].name_spec() == expr_name_spec(*r)
                &&& f.func.lt_spec() == cols[f.args@[0] as int].dtype_spec()
                &&& f.func.rt_spec() == cols[f.args@[1] as int].dtype_spec()
                &&& cols[i].dtype_spec() == f.func.result_dtype()
            })
        },
        SqlExpr::Not(x) => {
            &&& cols[i].name_spec() == expr_name_spec(e)
            &&& srcs[i] matches ColumnSource::Function(f) && ({
                &&& f.func.op_spec() == OpKind::Not
                &&& f.func.wf()
                &&& f.args@.len() == 1
                &&& (f.args@[0] as int) < i && 0 <= f.args@[0] as int
                &&& cols[f.args@[0] as int].name_spec() == expr_name_spec(*x)
                &&& f.func.lt_spec() == cols[f.args@[0] as int].dtype_spec()
                &&& cols[i].dtype_spec() == f.func.result_dtype()
            })
        },
    }
}

/// A column of a block built over `t` computes some expression whose
/// stringified form is the column's own name.
pub open spec fn col_is_lowered(t: Table, cols: Seq<Column>, srcs: Seq<ColumnSource>, i: int) -> bool {
    exists|e2: SqlExpr|
        expr_name_spec(e2) == cols[i].name_spec() && #[trigger] lowered_col(t, cols, srcs, e2, i)
}

/// Lowered columns stay lowered when the block only grows behind them.
pub proof fn lemma_lowered_col_extend(
    t: Table,
    cols1: Seq<Column>,
    srcs1: Seq<ColumnSource>,
    cols2: Seq<Column>,
    srcs2: Seq<ColumnSource>,
    e: SqlExpr,
    i: int,
)
    requires
        lowered_col(t, cols1, srcs1, e, i),
        0 <= i < cols1.len(),
        cols1.len() <= cols2.len(),
        srcs1.len() == cols1.len(),
        srcs2.len() == cols2.len(),
        forall|j: int| 0 <= j < cols1.len() ==> #[trigger] cols2[j] == cols1[j],
        forall|j: int| 0 <= j < srcs1.len() ==> #[trigger] srcs2[j] == srcs1[j],
    ensures
        lowered_col(t, cols2, srcs2, e, i),
    decreases e,
{
    match e {
        SqlExpr::Nested(x) => {
            lemma_lowered_col_extend(t, cols1, srcs1, cols2, srcs2, *x, i);
        },
        _ => {},
    }
}

/// Whether some column of the block bears the given name.
pub open spec fn has_col_named(cols: Seq<Column>, nm: Seq<char>) -> bool {
    exists|i: int| 0 <= i < cols.len() && (#[trigger] cols[i]).name_spec() == nm
}

/// Why compiling an expression fails, read off the block state at the
/// failure: an identifier that names neither a block column nor a schema
/// column, a number literal that is not a fitting digit string, a failing
/// operand, or an operator whose operand columns' types are rejected.
pub open spec fn expr_failure(t: Table, cols: Seq<Column>, e: SqlExpr) -> bool
    decreases e,
{
    match e {
        SqlExpr::Nested(x) => expr_failure(t, cols, *x),
        SqlExpr::Ident(s) => (forall|i: int|
            0 <= i < cols.len() ==> (#[trigger] cols[i]).name_spec() != s@) && ((forall|ci: int|
            0 <= ci < t.schema_headers().len() ==> (#[trigger] t.schema_headers()[ci]).name_spec()
                != s@) || exists|ci: int|
            0 <= ci < t.schema_headers().len() && (#[trigger] t.schema_headers()[ci]).name_spec()
                == s@ && ci >= t.col_count()),
        SqlExpr::Number(n) => (forall|i: int|
            0 <= i < cols.len() ==> (#[trigger] cols[i]).name_spec() != n@) && !(all_digits(n@)
            && n@.len() > 0 && digits_value(n@) <= i64::MAX),
        SqlExpr::StringLit(_) => false,
        SqlExpr::Binary(op, l, r) => {
            ||| expr_failure(t, cols, *l)
            ||| expr_failure(t, cols, *r)
            ||| exists|li: int, ri: int|
                0 <= li < cols.len() && 0 <= ri < cols.len() && (#[trigger] cols[li]).name_spec()
                    == expr_name_spec(*l) && (#[trigger] cols[ri]).name_spec() == expr_name_spec(
                    *r,
                ) && !op_accepts(sql_op_kind(op), cols[li].dtype_spec(), cols[ri].dtype_spec())
        },
        SqlExpr::Not(x) => {
            ||| expr_failure(t, cols, *x)
            ||| exists|xi: int|
                0 <= xi < cols.len() && (#[trigger] cols[xi]).name_spec() == expr_name_spec(*x)
                    && cols[xi].dtype_spec() != TypeName::DBInt
        },
    }
}

/// A range of lowered columns stays lowered when the block only grows
/// behind it.
pub proof fn lemma_lowered_range_extend(
    t: Table,
    cols1: Seq<Column>,
    srcs1: Seq<ColumnSource>,
    cols2: Seq<Column>,
    srcs2: Seq<ColumnSource>,
    lo: int,
)
    requires
        0 <= lo,
        forall|i2: int| lo <= i2 < cols1.len() ==> #[trigger] col_is_lowered(t, cols1, srcs1, i2),
        cols1.len() <= cols2.len(),
        srcs1.len() == cols1.len(),
        srcs2.len() == cols2.len(),
        forall|j: int| 0 <= j < cols1.len() ==> #[trigger] cols2[j] == cols1[j],
        forall|j: int| 0 <= j < srcs1.len() ==> #[trigger] srcs2[j] == srcs1[j],
    ensures
        forall|i2: int| lo <= i2 < cols1.len() ==> #[trigger] col_is_lowered(t, cols2, srcs2, i2),
{
    assert forall|i2: int| lo <= i2 < cols1.len() implies #[trigger] col_is_lowered(
        t,
        cols2,
        srcs2,
        i2,
    ) by {
        assert(col_is_lowered(t, cols1, srcs1, i2));
        let e2 = choose|e2: SqlExpr|
            expr_name_spec(e2) == cols1[i2].name_spec() && #[trigger] lowered_col(
                t,
                cols1,
                srcs1,
                e2,
                i2,
            );
        lemma_lowered_col_extend(t, cols1, srcs1, cols2, srcs2, e2, i2);
        assert(lowered_col(t, cols2, srcs2, e2, i2));
    }
}

/// Compiles one expression into the input block, memoized by its
/// stringified name: the returned name names a column of the block.
/// Identifiers become external readers over the table's column files,
/// literals become constants, operators become function columns whose
/// arguments stand strictly earlier.
pub fn parse_expr(table: &Table, input: &mut ColumnBlock, e: &SqlExpr) -> (r: DBResult<String>)
    requires
        old(input).wf(),
    ensures
        final(input).wf(),
        old(input).cols_spec().len() <= final(input).cols_spec().len(),
        forall|j: int|
            0 <= j < old(input).cols_spec().len() ==> #[trigger] final(input).cols_spec()[j] == old(
                input,
            ).cols_spec()[j] && final(input).sources_spec()[j] == old(input).sources_spec()[j],
        forall|i2: int|
            old(input).cols_spec().len() <= i2 < final(input).cols_spec().len()
                ==> #[trigger] col_is_lowered(
                *table,
                final(input).cols_spec(),
                final(input).sources_spec(),
                i2,
            ),
        match r {
            Ok(name) => name@ == expr_name_spec(*e) && exists|i: int|
                0 <= i < final(input).cols_spec().len() && (
                #[trigger] final(input).cols_spec()[i]).name_spec() == name@,
            Err(_) => expr_failure(*table, final(input).cols_spec(), *e),
        },
    decreases *e,
{
    let name = expr_name(e);
    match input.col_index_by_name(name.as_str()) {
        Some(i0) => {
            proof {
                assert(input.cols_spec()[i0 as int].name_spec() == name@);
            }
            return Ok(name);
        },
        None => {},
    }
    match e {
        SqlExpr::Ident(id) => {
            match table.col_index_of(id.as_str()) {
                Some(ci) => {
                    let h = ColumnHeader::new(id.as_str(), table.schema().header_at(ci).dtype());
                    let c = Column::new(h);
                    let bytes = match table.col_bytes_at(ci) {
                        Some(b) => slice_to_vec(b.as_slice()),
                        None => {
                            return Err(String::from_str("column file missing"));
                        },
                    };
                    let t = c.dtype();
                    input.add(c, ExternalSource::new_ref(bytes, t));
                    proof {
                        let latest = input.cols_spec().len() - 1;
                        assert(input.cols_spec()[latest].name_spec() == name@);
                        assert(lowered_col(
                            *table,
                            input.cols_spec(),
                            input.sources_spec(),
                            *e,
                            latest,
                        ));
                        assert(col_is_lowered(
                            *table,
                            input.cols_spec(),
                            input.sources_spec(),
                            latest,
                        ));
                    }
                    Ok(name)
                },
                None => {
                    let mut msg = String::from_str("Field ");
                    msg.append(id.as_str());
                    msg.append(" not found in ");
                    msg.append(table.name());
                    Err(msg)
                },
            }
        },
        SqlExpr::Number(n) => {
            let v = match parse_i64(n.as_str()) {
                Ok(v) => v,
                Err(e2) => {
                    return Err(e2);
                },
            };
            let c = Column::new(ColumnHeader::new(name.as_str(), TypeName::DBInt));
            input.add(c, ConstValueSource::new_ref(Val::Int(v)));
            proof {
                let latest = input.cols_spec().len() - 1;
                assert(input.cols_spec()[latest].name_spec() == name@);
                assert(lowered_col(*table, input.cols_spec(), input.sources_spec(), *e, latest));
                assert(col_is_lowered(*table, input.cols_spec(), input.sources_spec(), latest));
            }
            Ok(name)
        },
        SqlExpr::StringLit(s) => {
            let c = Column::new(ColumnHeader::new(name.as_str(), TypeName::DBString));
            input.add(c, ConstValueSource::new_ref(Val::Str(s.clone())));
            proof {
                let latest = input.cols_spec().len() - 1;
                assert(input.cols_spec()[latest].name_spec() == name@);
                assert(lowered_col(*table, input.cols_spec(), input.sources_spec(), *e, latest));
                assert(col_is_lowered(*table, input.cols_spec(), input.sources_spec(), latest));
            }
            Ok(name)
        },
        SqlExpr::Binary(op, l, rx) => {
            let ghost len0 = old(input).cols_spec().len() as int;
            let ln = match parse_expr(table, input, l) {
                Ok(n) => n,
                Err(e2) => {
                    return Err(e2);
                },
            };
            let ghost cols1 = input.cols_spec();
            let ghost srcs1 = input.sources_spec();
            let rn = match parse_expr(table, input, rx) {
                Ok(n) => n,
                Err(e2) => {
                    proof {
                        lemma_lowered_range_extend(
                            *table,
                            cols1,
                            srcs1,
                            input.cols_spec(),
                            input.sources_spec(),
                            len0,
                        );
                    }
                    return Err(e2);
                },
            };
            proof {
                lemma_lowered_range_extend(
                    *table,
                    cols1,
                    srcs1,
                    input.cols_spec(),
                    input.sources_spec(),
                    len0,
                );
            }
            let ghost cols2g = input.cols_spec();
            let li = match input.col_index_by_name(ln.as_str()) {
                Some(i) => i,
                None => {
                    proof {
                        let iw = choose|i: int|
                            0 <= i < cols1.len() && (#[trigger] cols1[i]).name_spec() == ln@;
                        assert(input.cols_spec()[iw].name_spec() == ln@);
                    }
                    return Err(String::from_str("argument column missing"));
                },
            };
            let ri = match input.col_index_by_name(rn.as_str()) {
                Some(i) => i,
                None => {
                    proof {
                        let iw = choose|i: int|
                            0 <= i < cols2g.len() && (#[trigger] cols2g[i]).name_spec() == rn@;
                        assert(input.cols_spec()[iw].name_spec() == rn@);
                    }
                    return Err(String::from_str("argument column missing"));
                },
            };
            let lt = input.col_at(li).dtype();
            let rt = input.col_at(ri).dtype();
            let builder = RegFunBuilder::for_op(op_kind_of(*op));
            let mut tys: Vec<TypeName> = Vec::new();
            tys.push(lt);
            tys.push(rt);
            let rty = match builder.result_type(tys) {
                Ok(t) => t,
                Err(e2) => {
                    return Err(e2);
                },
            };
            let mut tys2: Vec<TypeName> = Vec::new();
            tys2.push(lt);
            tys2.push(rt);
            let f = match builder.build(tys2) {
                Ok(f) => f,
                Err(e2) => {
                    return Err(e2);
                },
            };
            match input.col_index_by_name(name.as_str()) {
                Some(i0) => {
                    proof {
                        assert(input.cols_spec()[i0 as int].name_spec() == name@);
                    }
                    return Ok(name);
                },
                None => {},
            }
            let ghost cols2 = input.cols_spec();
            let ghost srcs2 = input.sources_spec();
            let c = Column::new(ColumnHeader::new(name.as_str(), rty));
            let mut args: Vec<usize> = Vec::new();
            args.push(li);
            args.push(ri);
            input.add(c, FunctionSource::new_ref(args, f));
            proof {
                lemma_lowered_range_extend(
                    *table,
                    cols2,
                    srcs2,
                    input.cols_spec(),
                    input.sources_spec(),
                    len0,
                );
                let latest = input.cols_spec().len() - 1;
                assert(input.cols_spec()[latest].name_spec() == name@);
                assert(lowered_col(*table, input.cols_spec(), input.sources_spec(), *e, latest));
                assert(col_is_lowered(*table, input.cols_spec(), input.sources_spec(), latest));
            }
            Ok(name)
        },
        SqlExpr::Not(x) => {
            let ghost len0 = old(input).cols_spec().len() as int;
            let xn = match parse_expr(table, input, x) {
                Ok(n) => n,
                Err(e2) => {
                    return Err(e2);
                },
            };
            let xi = match input.col_index_by_name(xn.as_str()) {
                Some(i) => i,
                None => {
                    proof {
                        let iw = choose|i: int|
                            0 <= i < input.cols_spec().len() && (
                            #[trigger] input.cols_spec()[i]).name_spec() == xn@;
                        assert(input.cols_spec()[iw].name_spec() == xn@);
                    }
                    return Err(String::from_str("argument column missing"));
                },
            };
            let xt = input.col_at(xi).dtype();
            let builder = RegFunBuilder::for_op(OpKind::Not);
            let mut tys: Vec<TypeName> = Vec::new();
            tys.push(xt);
            let rty = match builder.result_type(tys) {
                Ok(t) => t,
                Err(e2) => {
                    return Err(e2);
                },
            };
            let mut tys2: Vec<TypeName> = Vec::new();
            tys2.push(xt);
            let f = match builder.build(tys2) {
                Ok(f) => f,
                Err(e2) => {
                    return Err(e2);
                },
            };
            match input.col_index_by_name(name.as_str()) {
                Some(i0) => {
                    proof {
                        assert(input.cols_spec()[i0 as int].name_spec() == name@);
                    }
                    return Ok(name);
                },
                None => {},
            }
            let ghost cols2 = input.cols_spec();
            let ghost srcs2 = input.sources_spec();
            let c = Column::new(ColumnHeader::new(name.as_str(), rty));
            let mut args: Vec<usize> = Vec::new();
            args.push(xi);
            input.add(c, FunctionSource::new_ref(args, f));
            proof {
                lemma_lowered_range_extend(
                    *table,
                    cols2,
                    srcs2,
                    input.cols_spec(),
                    input.sources_spec(),
                    len0,
                );
                let latest = input.cols_spec().len() - 1;
                assert(input.cols_spec()[latest].name_spec() == name@);
                assert(lowered_col(*table, input.cols_spec(), input.sources_spec(), *e, latest));
                assert(col_is_lowered(*table, input.cols_spec(), input.sources_spec(), latest));
            }
            Ok(name)
        },
        SqlExpr::Nested(x) => parse_expr(table, input, x),
    }
}

/// Compiles every schema column for a `*` projection, in schema order.
pub fn process_wild(table: &Table, input: &mut ColumnBlock) -> (r: DBResult<Vec<String>>)
    requires
        old(input).wf(),
    ensures
        final(input).wf(),
        old(input).cols_spec().len() <= final(input).cols_spec().len(),
        forall|j: int|
            0 <= j < old(input).cols_spec().len() ==> #[trigger] final(input).cols_spec()[j] == old(
                input,
            ).cols_spec()[j] && final(input).sources_spec()[j] == old(input).sources_spec()[j],
        forall|i2: int|
            old(input).cols_spec().len() <= i2 < final(input).cols_spec().len()
                ==> #[trigger] col_is_lowered(
                *table,
                final(input).cols_spec(),
                final(input).sources_spec(),
                i2,
            ),
        match r {
            Ok(names) => names@.len() == table.schema_headers().len() && forall|k: int|
                0 <= k < names@.len() ==> (#[trigger] names@[k])@ == table.schema_headers()[
                    k].name_spec(),
            Err(_) => true,
        },
        r is Ok ==> forall|k: int|
            0 <= k < table.schema_headers().len() ==> #[trigger] has_col_named(
                final(input).cols_spec(),
                table.schema_headers()[k].name_spec(),
            ),
        table.wf() ==> r is Ok,
{
    let ghost len0 = old(input).cols_spec().len() as int;
    let ghost mut idxs: Seq<int> = Seq::empty();
    let mut names: Vec<String> = Vec::new();
    let n = table.schema().len();
    let mut j: usize = 0;
    while j < n
        invariant
            j <= n,
            n == table.schema_headers().len(),
            input.wf(),
            len0 == old(input).cols_spec().len(),
            len0 <= input.cols_spec().len(),
            forall|m: int|
                0 <= m < len0 ==> #[trigger] input.cols_spec()[m] == old(input).cols_spec()[m]
                    && input.sources_spec()[m] == old(input).sources_spec()[m],
            forall|i2: int|
                len0 <= i2 < input.cols_spec().len() ==> #[trigger] col_is_lowered(
                    *table,
                    input.cols_spec(),
                    input.sources_spec(),
                    i2,
                ),
            names@.len() == j,
            forall|k: int|
                0 <= k < j ==> (#[trigger] names@[k])@ == table.schema_headers()[k].name_spec(),
            idxs.len() == j,
            forall|k: int|
                0 <= k < j ==> 0 <= #[trigger] idxs[k] < input.cols_spec().len()
                    && input.cols_spec()[idxs[k]].name_spec() == names@[k]@,
        decreases n - j,
    {
        let h = table.schema().header_at(j);
        let e = SqlExpr::Ident(String::from_str(h.name()));
        let ghost colsb = input.cols_spec();
        let ghost srcsb = input.sources_spec();
        let nm = match parse_expr(table, input, &e) {
            Ok(nm) => nm,
            Err(e2) => {
                proof {
                    lemma_lowered_range_extend(
                        *table,
                        colsb,
                        srcsb,
                        input.cols_spec(),
                        input.sources_spec(),
                        len0,
                    );
                    if table.wf() {
                        // a schema column of a well-formed table always lowers
                        assert(table.schema_headers()[j as int].name_spec() == h.name_spec());
                        assert(!expr_failure(*table, input.cols_spec(), e));
                        assert(false);
                    }
                }
                return Err(e2);
            },
        };
        proof {
            lemma_lowered_range_extend(
                *table,
                colsb,
                srcsb,
                input.cols_spec(),
                input.sources_spec(),
                len0,
            );
            let iw = choose|i: int|
                0 <= i < input.cols_spec().len() && (#[trigger] input.cols_spec()[i]).name_spec()
                    == nm@;
            idxs = idxs.push(iw);
        }
        names.push(nm);
        j += 1;
    }
    proof {
        assert forall|k: int|
            0 <= k < table.schema_headers().len() implies #[trigger] has_col_named(
            input.cols_spec(),
            table.schema_headers()[k].name_spec(),
        ) by {
            let iw = idxs[k];
            assert(0 <= iw < input.cols_spec().len() && input.cols_spec()[iw].name_spec()
                == names@[k]@);
        }
    }
    Ok(names)
}

/// Builds an execution plan from a parsed query over a database's table.
pub struct Constructor<'a> {
    db: &'a DB,
}

impl<'a> Constructor<'a> {
    pub closed spec fn db_spec(&self) -> DB {
        *self.db
    }

    pub fn new(db: &'a DB) -> (r: Constructor<'a>)
        ensures
            r.db_spec() == *db,
    {
        Constructor { db }
    }

    /// Lowers one parsed SQL statement list to a plan: the plan is well
    /// formed, and every input column computes an expression over one of
    /// the database's tables. The caller runs the outside parser itself,
    /// keeping any parser panic on its own side.
    pub fn make_plan(&self, stmts: Vec<sqlparser::ast::Statement>) -> (r: DBResult<Plan>)
        ensures
            match r {
                Ok(p) => p.wf() && plan_lowered_over(self.db_spec(), p),
                Err(_) => true,
            },
    {
        let q = match crate::sql::query_from_statements(stmts) {
            Ok(q) => q,
            Err(e) => {
                return Err(e);
            },
        };
        make_plan_query(self.db, &q)
    }
}

/// The plainest well-formed query: `SELECT *` from one existing,
/// well-formed table, with no WHERE, ORDER BY, LIMIT or OFFSET.
pub open spec fn plain_wildcard_query(db: DB, q: SqlQuery) -> bool {
    &&& exists|ti: int|
        0 <= ti < db.tables_spec().len() && (#[trigger] db.tables_spec()[ti]).name_spec()
            == q.table@
    &&& forall|ti: int|
        0 <= ti < db.tables_spec().len() && (#[trigger] db.tables_spec()[ti]).name_spec()
            == q.table@ ==> db.tables_spec()[ti].wf()
    &&& q.items@.len() == 1
    &&& q.items@[0] is Wildcard
    &&& q.selection is None
    &&& q.order_by@.len() == 0
    &&& q.limit is None
    &&& q.offset is None
}

/// Every input column of the plan computes an expression over one of the
/// database's tables.
pub open spec fn plan_lowered_over(db: DB, p: Plan) -> bool {
    exists|ti: int|
        0 <= ti < db.tables_spec().len() && (forall|i2: int|
            0 <= i2 < p.step_spec().input_spec().cols_spec().len() ==> #[trigger] col_is_lowered(
                (#[trigger] db.tables_spec()[ti]),
                p.step_spec().input_spec().cols_spec(),
                p.step_spec().input_spec().sources_spec(),
                i2,
            ))
}

/// Lowers a parsed query to a plan: the WHERE, projection and ORDER BY
/// expressions become input-block columns; the projected columns become
/// empty output columns filled by the filtered append; ORDER BY keys are
/// carried into the output so the sort sees the rows the WHERE kept.
/// Without an ORDER BY the append itself applies OFFSET/LIMIT, so a LIMIT
/// stops the drive early; with one, the sort pass trims instead.
pub fn make_plan_query(db: &DB, q: &SqlQuery) -> (r: DBResult<Plan>)
    ensures
        match r {
            Ok(p) => {
                &&& p.wf()
                &&& (p.step_spec().order_fields() is Some <==> q.order_by@.len() > 0)
                &&& q.order_by@.len() == 0 ==> p.step_spec().plain_limit() == (match q.limit {
                    Some(l) => Some(l as usize),
                    None => None::<usize>,
                })
                &&& q.order_by@.len() > 0 ==> p.step_spec().order_limit() == (match q.limit {
                    Some(l) => Some(l as usize),
                    None => None::<usize>,
                })
                &&& (match q.selection {
                    Some(sel) => match p.step_spec().filter_index() {
                        Some(fi) => fi < p.step_spec().input_spec().cols_spec().len()
                            && p.step_spec().input_spec().cols_spec()[fi as int].name_spec()
                            == expr_name_spec(sel) && p.step_spec().input_spec().cols_spec()[
                            fi as int].dtype_spec() == TypeName::DBInt,
                        None => false,
                    },
                    None => p.step_spec().filter_index() is None,
                })
                &&& p.step_spec().copy_map().len() == p.step_spec().output_spec().cols_spec().len()
                &&& forall|k: int|
                    0 <= k < p.step_spec().copy_map().len() ==> (
                    #[trigger] p.step_spec().copy_map()[k]) < p.step_spec(
                    ).input_spec().cols_spec().len() && p.step_spec().input_spec().cols_spec()[
                        p.step_spec().copy_map()[k] as int].name_spec() == p.step_spec(
                    ).output_spec().cols_spec()[k].name_spec() && p.step_spec(
                    ).input_spec().cols_spec()[p.step_spec().copy_map()[k] as int].dtype_spec()
                        == p.step_spec().output_spec().cols_spec()[k].dtype_spec()
                &&& block_rows(p.step_spec().output_spec()) == 0
                &&& p.step_spec().sizes_pos() == 0
                &&& exists|ti: int|
                    0 <= ti < db.tables_spec().len() && (#[trigger] db.tables_spec()[
                    ti]).name_spec() == q.table@ && db.tables_spec()[ti].sizes_spec()
                        == p.step_spec().sizes_src() && (forall|i2: int|
                        0 <= i2 < p.step_spec().input_spec().cols_spec().len()
                            ==> #[trigger] col_is_lowered(
                            db.tables_spec()[ti],
                            p.step_spec().input_spec().cols_spec(),
                            p.step_spec().input_spec().sources_spec(),
                            i2,
                        ))
                &&& plan_lowered_over(*db, p)
            },
            Err(_) => true,
        },
        (forall|ti: int|
            0 <= ti < db.tables_spec().len() ==> (#[trigger] db.tables_spec()[ti]).name_spec()
                != q.table@) ==> r is Err,
        plain_wildcard_query(*db, *q) ==> r is Ok,
{
    let table = match db.get_table(q.table.as_str()) {
        Some(t) => t,
        None => {
            proof {
                if plain_wildcard_query(*db, *q) {
                    let ti = choose|ti: int|
                        0 <= ti < db.tables_spec().len() && (
                        #[trigger] db.tables_spec()[ti]).name_spec() == q.table@;
                    assert(db.tables_spec()[ti].name_spec() == q.table@);
                    assert(false);
                }
            }
            let mut msg = String::from_str("Table ");
            msg.append(q.table.as_str());
            msg.append(" don't exists");
            return Err(msg);
        },
    };
    proof {
        if plain_wildcard_query(*db, *q) {
            let wi = choose|i: int|
                0 <= i < db.tables_spec().len() && *table == db.tables_spec()[i]
                    && table.name_spec() == q.table@;
            assert(db.tables_spec()[wi].wf());
            assert(table.wf());
        }
    }
    let mut input = ColumnBlock::new();
    let filter_name: Option<String> = match &q.selection {
        Some(e) => {
            match parse_expr(table, &mut input, e) {
                Ok(n) => Some(n),
                Err(e2) => {
                    return Err(e2);
                },
            }
        },
        None => None,
    };
    proof {
        assert(forall|i2: int|
            0 <= i2 < input.cols_spec().len() ==> #[trigger] col_is_lowered(
                *table,
                input.cols_spec(),
                input.sources_spec(),
                i2,
            ));
    }
    let mut res_cols: Vec<String> = Vec::new();
    let ni = q.items.len();
    let mut i: usize = 0;
    while i < ni
        invariant
            i <= ni,
            ni == q.items@.len(),
            input.wf(),
            forall|i2: int|
                0 <= i2 < input.cols_spec().len() ==> #[trigger] col_is_lowered(
                    *table,
                    input.cols_spec(),
                    input.sources_spec(),
                    i2,
                ),
            plain_wildcard_query(*db, *q) ==> table.wf(),
            plain_wildcard_query(*db, *q) ==> (i == 0 ==> res_cols@ =~= Seq::<String>::empty()),
            plain_wildcard_query(*db, *q) ==> (i > 0 ==> res_cols@.len()
                == table.schema_headers().len() && (forall|k: int|
                0 <= k < res_cols@.len() ==> (#[trigger] res_cols@[k])@ == table.schema_headers()[
                    k].name_spec()) && (forall|k: int|
                0 <= k < table.schema_headers().len() ==> #[trigger] has_col_named(
                    input.cols_spec(),
                    table.schema_headers()[k].name_spec(),
                ))),
        decreases ni - i,
    {
        let ghost colsb = input.cols_spec();
        let ghost srcsb = input.sources_spec();
        match &q.items[i] {
            SqlItem::Expr(e) => {
                proof {
                    if plain_wildcard_query(*db, *q) {
                        assert(q.items@[0] is Wildcard);
                        assert(false);
                    }
                }
                let n = match parse_expr(table, &mut input, e) {
                    Ok(n) => n,
                    Err(e2) => {
                        return Err(e2);
                    },
                };
                res_cols.push(n);
            },
            SqlItem::Wildcard => {
                let ghost rpre = res_cols@;
                let mut ws = match process_wild(table, &mut input) {
                    Ok(ws) => ws,
                    Err(e2) => {
                        proof {
                            if plain_wildcard_query(*db, *q) {
                                assert(false);
                            }
                        }
                        return Err(e2);
                    },
                };
                let ghost wsv = ws@;
                res_cols.append(&mut ws);
                proof {
                    if plain_wildcard_query(*db, *q) {
                        assert(res_cols@ =~= wsv);
                    }
                }
            },
        }
        proof {
            lemma_lowered_range_extend(
                *table,
                colsb,
                srcsb,
                input.cols_spec(),
                input.sources_spec(),
                0,
            );
        }
        i += 1;
    }
    let mut order_names: Vec<String> = Vec::new();
    let no = q.order_by.len();
    let mut i: usize = 0;
    while i < no
        invariant
            i <= no,
            no == q.order_by@.len(),
            input.wf(),
            order_names@.len() == i,
            forall|i2: int|
                0 <= i2 < input.cols_spec().len() ==> #[trigger] col_is_lowered(
                    *table,
                    input.cols_spec(),
                    input.sources_spec(),
                    i2,
                ),
            plain_wildcard_query(*db, *q) ==> res_cols@.len() == table.schema_headers().len()
                && (forall|k: int|
                0 <= k < res_cols@.len() ==> (#[trigger] res_cols@[k])@ == table.schema_headers()[
                    k].name_spec()) && (forall|k: int|
                0 <= k < table.schema_headers().len() ==> #[trigger] has_col_named(
                    input.cols_spec(),
                    table.schema_headers()[k].name_spec(),
                )),
        decreases no - i,
    {
        let ghost colsb = input.cols_spec();
        let ghost srcsb = input.sources_spec();
        let n = match parse_expr(table, &mut input, &q.order_by[i].expr) {
            Ok(n) => n,
            Err(e2) => {
                return Err(e2);
            },
        };
        proof {
            lemma_lowered_range_extend(
                *table,
                colsb,
                srcsb,
                input.cols_spec(),
                input.sources_spec(),
                0,
            );
        }
        order_names.push(n);
        i += 1;
    }
    let filter_col_index: Option<usize> = match &filter_name {
        Some(nm) => {
            match input.col_index_by_name(nm.as_str()) {
                Some(fi) => {
                    if input.col_at(fi).dtype() == TypeName::DBInt {
                        proof {
                            assert(input.cols_spec()[fi as int].name_spec() == nm@);
                        }
                        Some(fi)
                    } else {
                        return Err(
                            String::from_str("the WHERE expression must yield an Int condition"),
                        );
                    }
                },
                None => {
                    return Err(String::from_str("filter column missing"));
                },
            }
        },
        None => None,
    };
    let mut output = ColumnBlock::new();
    let mut cols_to_copy: Vec<usize> = Vec::new();
    let nr = res_cols.len();
    let mut i: usize = 0;
    while i < nr
        invariant
            i <= nr,
            nr == res_cols@.len(),
            input.wf(),
            output.wf(),
            output.cols_spec().len() == cols_to_copy@.len(),
            forall|k: int|
                0 <= k < cols_to_copy@.len() ==> (#[trigger] cols_to_copy@[k])
                    < input.cols_spec().len(),
            forall|k: int|
                0 <= k < cols_to_copy@.len() ==> input.cols_spec()[
                    #[trigger] cols_to_copy@[k] as int].dtype_spec() == output.cols_spec()[
                    k].dtype_spec() && input.cols_spec()[cols_to_copy@[k] as int].name_spec()
                    == output.cols_spec()[k].name_spec(),
            forall|k: int|
                0 <= k < output.cols_spec().len() ==> (
                #[trigger] output.cols_spec()[k]).data_spec().len() == 0,
            plain_wildcard_query(*db, *q) ==> res_cols@.len() == table.schema_headers().len()
                && (forall|k: int|
                0 <= k < res_cols@.len() ==> (#[trigger] res_cols@[k])@ == table.schema_headers()[
                    k].name_spec()) && (forall|k: int|
                0 <= k < table.schema_headers().len() ==> #[trigger] has_col_named(
                    input.cols_spec(),
                    table.schema_headers()[k].name_spec(),
                )),
        decreases nr - i,
    {
        let nm = &res_cols[i];
        let ci = match input.col_index_by_name(nm.as_str()) {
            Some(ci) => ci,
            None => {
                proof {
                    if plain_wildcard_query(*db, *q) {
                        assert(has_col_named(
                            input.cols_spec(),
                            table.schema_headers()[i as int].name_spec(),
                        ));
                        let iw = choose|i2: int|
                            0 <= i2 < input.cols_spec().len() && (
                            #[trigger] input.cols_spec()[i2]).name_spec()
                                == table.schema_headers()[i as int].name_spec();
                        assert(input.cols_spec()[iw].name_spec() == nm@);
                        assert(false);
                    }
                }
                return Err(String::from_str("projected column missing"));
            },
        };
        if !output.has_col(nm.as_str()) {
            let c = input.col_at(ci).clone_empty();
            output.add(c, DontTouchSource::new_ref());
            cols_to_copy.push(ci);
        }
        i += 1;
    }
    let mut order_fields: Vec<(usize, bool)> = Vec::new();
    let mut i: usize = 0;
    while i < no
        invariant
            i <= no,
            no == q.order_by@.len(),
            no == order_names@.len(),
            input.wf(),
            output.wf(),
            output.cols_spec().len() == cols_to_copy@.len(),
            forall|k: int|
                0 <= k < cols_to_copy@.len() ==> (#[trigger] cols_to_copy@[k])
                    < input.cols_spec().len(),
            forall|k: int|
                0 <= k < cols_to_copy@.len() ==> input.cols_spec()[
                    #[trigger] cols_to_copy@[k] as int].dtype_spec() == output.cols_spec()[
                    k].dtype_spec() && input.cols_spec()[cols_to_copy@[k] as int].name_spec()
                    == output.cols_spec()[k].name_spec(),
            forall|k: int|
                0 <= k < output.cols_spec().len() ==> (
                #[trigger] output.cols_spec()[k]).data_spec().len() == 0,
            order_fields@.len() == i,
            forall|k: int|
                0 <= k < order_fields@.len() ==> ((#[trigger] order_fields@[k]).0 as int)
                    < output.cols_spec().len(),
        decreases no - i,
    {
        let nm = &order_names[i];
        let oi: usize = match output.col_index_by_name(nm.as_str()) {
            Some(oi) => oi,
            None => {
                let ci = match input.col_index_by_name(nm.as_str()) {
                    Some(ci) => ci,
                    None => {
                        return Err(String::from_str("order column missing"));
                    },
                };
                let c = input.col_at(ci).clone_empty();
                output.add(c, DontTouchSource::new_ref());
                cols_to_copy.push(ci);
                output.cols_len() - 1
            },
        };
        order_fields.push((oi, q.order_by[i].asc));
        i += 1;
    }
    let lim_opt: Option<usize> = match q.limit {
        Some(l) => {
            if l > usize::MAX as u64 {
                return Err(String::from_str("limit too large"));
            } else {
                Some(l as usize)
            }
        },
        None => None,
    };
    let off_opt: Option<usize> = match q.offset {
        Some(o) => {
            if o > usize::MAX as u64 {
                return Err(String::from_str("offset too large"));
            } else {
                Some(o as usize)
            }
        },
        None => None,
    };
    let has_order = order_fields.len() > 0;
    let driver = ChunkedProcessor::new(table_size_iterator(table));
    let (copy_off, copy_lim): (Option<usize>, Option<usize>) = if has_order {
        (None, None)
    } else {
        (off_opt, lim_opt)
    };
    let post: Option<OrderByPostProcessor> = if has_order {
        Some(OrderByPostProcessor::new(order_fields, off_opt, lim_opt))
    } else {
        None
    };
    let append = FilteredAppendToOutputProcessor::new(
        cols_to_copy,
        filter_col_index,
        copy_off,
        copy_lim,
    );
    proof {
        assert(block_rows(output) == 0);
    }
    let step = ExecuteStep::new(input, output, driver, append, post);
    Ok(Plan::new(step))
}

} // verus!
