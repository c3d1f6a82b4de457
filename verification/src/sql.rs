use vstd::prelude::*;
use crate::DBResult;

verus! {

use vstd::string::*;
use sqlparser::ast::Statement as AstStatement;
use sqlparser::ast::Query as AstQuery;
use sqlparser::ast::Select as AstSelect;
use sqlparser::ast::Expr as AstExpr;
use sqlparser::ast::Value as AstValue;
use sqlparser::ast::SelectItem as AstSelectItem;
use sqlparser::ast::OrderByExpr as AstOrderByExpr;
use sqlparser::ast::BinaryOperator as AstBinaryOperator;
use sqlparser::ast::TableWithJoins as AstTableWithJoins;

/// A binary operator as it appears in a query.
#[derive(Clone, Copy, Debug, PartialEq, Eq, Structural)]
pub enum SqlOp {
    Plus,
    Minus,
    Multiply,
    Divide,
    Eq,
    NotEq,
    Lt,
    LtEq,
    Gt,
    GtEq,
    And,
    Or,
}

/// The expression shapes the engine evaluates: identifiers, numeric and
/// string literals, binary operators, NOT, and parenthesised expressions.
pub enum SqlExpr {
    Ident(String),
    Number(String),
    StringLit(String),
    Binary(SqlOp, Box<SqlExpr>, Box<SqlExpr>),
    Not(Box<SqlExpr>),
    Nested(Box<SqlExpr>),
}

/// One projection entry: a bare expression or `*`.
pub enum SqlItem {
    Expr(SqlExpr),
    Wildcard,
}

/// One ORDER BY entry; `asc` is true unless `DESC` was written.
pub struct SqlOrderItem {
    pub expr: SqlExpr,
    pub asc: bool,
}

/// A supported `SELECT`: one table, a projection list, an optional WHERE
/// expression, ORDER BY entries, and integer LIMIT/OFFSET.
pub struct SqlQuery {
    pub table: String,
    pub items: Vec<SqlItem>,
    pub selection: Option<SqlExpr>,
    pub order_by: Vec<SqlOrderItem>,
    pub limit: Option<u64>,
    pub offset: Option<u64>,
}

// ------------------------------------------------------------------
// Expression names: the stringified form that memoizes sub-expressions.
// ------------------------------------------------------------------

pub open spec fn op_token(op: SqlOp) -> Seq<char> {
    match op {
        SqlOp::Plus => "+"@,
        SqlOp::Minus => "-"@,
        SqlOp::Multiply => "*"@,
        SqlOp::Divide => "/"@,
        SqlOp::Eq => "="@,
        SqlOp::NotEq => "<>"@,
        SqlOp::Lt => "<"@,
        SqlOp::LtEq => "<="@,
        SqlOp::Gt => ">"@,
        SqlOp::GtEq => ">="@,
        SqlOp::And => "AND"@,
        SqlOp::Or => "OR"@,
    }
}

/// The name of the column an expression is evaluated into; a repeated
/// sub-expression shares one column through this name.
pub open spec fn expr_name_spec(e: SqlExpr) -> Seq<char>
    decreases e,
{
    match e {
        SqlExpr::Ident(s) => s@,
        SqlExpr::Number(s) => s@,
        SqlExpr::StringLit(s) => seq!['\''] + s@ + seq!['\''],
        SqlExpr::Binary(op, l, r) => expr_name_spec(*l) + seq![' '] + op_token(op) + seq![' ']
            + expr_name_spec(*r),
        SqlExpr::Not(x) => "NOT "@ + expr_name_spec(*x),
        SqlExpr::Nested(x) => expr_name_spec(*x),
    }
}

fn op_token_exec(op: SqlOp) -> (r: &'static str)
    ensures
        r@ == op_token(op),
{
    proof {
        reveal_strlit("+");
        reveal_strlit("-");
        reveal_strlit("*");
        reveal_strlit("/");
        reveal_strlit("=");
        reveal_strlit("<>");
        reveal_strlit("<");
        reveal_strlit("<=");
        reveal_strlit(">");
        reveal_strlit(">=");
        reveal_strlit("AND");
        reveal_strlit("OR");
    }
    match op {
        SqlOp::Plus => "+",
        SqlOp::Minus => "-",
        SqlOp::Multiply => "*",
        SqlOp::Divide => "/",
        SqlOp::Eq => "=",
        SqlOp::NotEq => "<>",
        SqlOp::Lt => "<",
        SqlOp::LtEq => "<=",
        SqlOp::Gt => ">",
        SqlOp::GtEq => ">=",
        SqlOp::And => "AND",
        SqlOp::Or => "OR",
    }
}

/// Builds the memoization name of an expression.
pub fn expr_name(e: &SqlExpr) -> (r: String)
    ensures
        r@ == expr_name_spec(*e),
    decreases *e,
{
    proof {
        reveal_strlit("'");
        reveal_strlit(" ");
        reveal_strlit("NOT ");
    }
    match e {
        SqlExpr::Ident(s) => s.clone(),
        SqlExpr::Number(s) => s.clone(),
        SqlExpr::StringLit(s) => {
            let mut out = String::from_str("'");
            out.append(s.as_str());
            out.append("'");
            proof {
                assert(out@ =~= expr_name_spec(*e));
            }
            out
        },
        SqlExpr::Binary(op, l, r) => {
            let mut out = expr_name(l);
            out.append(" ");
            out.append(op_token_exec(*op));
            out.append(" ");
            let rn = expr_name(r);
            out.append(rn.as_str());
            proof {
                assert(out@ =~= expr_name_spec(*e));
            }
            out
        },
        SqlExpr::Not(x) => {
            let mut out = String::from_str("NOT ");
            let xn = expr_name(x);
            out.append(xn.as_str());
            proof {
                assert(out@ =~= expr_name_spec(*e));
            }
            out
        },
        SqlExpr::Nested(x) => expr_name(x),
    }
}

// ------------------------------------------------------------------
// Number literals: decimal digits parsed exactly.
// ------------------------------------------------------------------

pub open spec fn is_digit(c: char) -> bool {
    48 <= (c as u32) <= 57
}

pub open spec fn all_digits(s: Seq<char>) -> bool {
    forall|i: int| 0 <= i < s.len() ==> is_digit(#[trigger] s[i])
}

/// The number a digit string denotes.
pub open spec fn digits_value(s: Seq<char>) -> int
    decreases s.len(),
{
    if s.len() == 0 {
        0
    } else {
        digits_value(s.drop_last()) * 10 + ((s.last() as u32) - 48)
    }
}

pub proof fn lemma_digits_value_nonneg(s: Seq<char>)
    requires
        all_digits(s),
    ensures
        digits_value(s) >= 0,
    decreases s.len(),
{
    if s.len() > 0 {
        assert(all_digits(s.drop_last())) by {
            assert(forall|i: int| 0 <= i < s.len() - 1 ==> s.drop_last()[i] == s[i]);
        }
        lemma_digits_value_nonneg(s.drop_last());
    }
}

/// A digit string's value only grows as digits are appended.
pub proof fn lemma_digits_prefix_le(s: Seq<char>, i: int)
    requires
        all_digits(s),
        0 <= i <= s.len(),
    ensures
        digits_value(s.take(i)) <= digits_value(s),
    decreases s.len() - i,
{
    if i < s.len() {
        lemma_digits_prefix_le(s, i + 1);
        assert(s.take(i + 1).drop_last() =~= s.take(i));
        assert(s.take(i + 1).last() == s[i]);
        assert(all_digits(s.take(i))) by {
            assert(forall|j: int| 0 <= j < i ==> s.take(i)[j] == s[j]);
        }
        lemma_digits_value_nonneg(s.take(i));
        assert(digits_value(s.take(i + 1)) == digits_value(s.take(i)) * 10 + ((s[i] as u32) - 48));
        assert(digits_value(s.take(i)) * 10 >= digits_value(s.take(i))) by (nonlinear_arith)
            requires
                digits_value(s.take(i)) >= 0,
        ;
    } else {
        assert(s.take(i) =~= s);
    }
}

/// Parses an unsigned decimal literal; rejects anything that is not a
/// digit string whose value fits a u64.
pub fn parse_u64(s: &str) -> (r: DBResult<u64>)
    ensures
        match r {
            Ok(v) => all_digits(s@) && s@.len() > 0 && digits_value(s@) == v,
            Err(_) => !(all_digits(s@) && s@.len() > 0 && digits_value(s@) <= u64::MAX),
        },
{
    let n = s.unicode_len();
    if n == 0 {
        return Err(String::from_str("number parse error"));
    }
    let mut acc: u64 = 0;
    let mut i: usize = 0;
    while i < n
        invariant
            i <= n,
            n == s@.len(),
            all_digits(s@.take(i as int)),
            acc == digits_value(s@.take(i as int)),
        decreases n - i,
    {
        let c = s.get_char(i);
        let code = c as u32;
        if code < 48 || code > 57 {
            proof {
                assert(!is_digit(s@[i as int]));
            }
            return Err(String::from_str("number parse error"));
        }
        let d = (code - 48) as u64;
        proof {
            assert(s@.take(i + 1).drop_last() =~= s@.take(i as int));
            assert(s@.take(i + 1).last() == s@[i as int]);
            assert(forall|j: int| 0 <= j < i + 1 ==> #[trigger] s@.take(i + 1)[j] == s@[j]);
        }
        let step: Option<u64> = match acc.checked_mul(10) {
            Some(m) => m.checked_add(d),
            None => None,
        };
        match step {
            Some(v) => {
                acc = v;
            },
            None => {
                proof {
                    assert(all_digits(s@.take(i + 1)));
                    if all_digits(s@) {
                        assert(digits_value(s@.take(i + 1)) == acc * 10 + ((s@[i as int] as u32)
                            - 48));
                        lemma_digits_prefix_le(s@, i + 1);
                        assert(digits_value(s@.take(i + 1)) > u64::MAX);
                    }
                }
                return Err(String::from_str("number too large"));
            },
        }
        i += 1;
    }
    proof {
        assert(s@.take(n as int) =~= s@);
    }
    Ok(acc)
}

// ------------------------------------------------------------------
// The SQL front-end: the outside parser yields its AST, which is moved
// node by node into the library's own expression shapes above.
// ------------------------------------------------------------------

#[verifier::external_type_specification]
#[verifier::external_body]
pub struct ExStatement(AstStatement);

#[verifier::external_type_specification]
#[verifier::external_body]
pub struct ExQuery(AstQuery);

#[verifier::external_type_specification]
#[verifier::external_body]
pub struct ExSelect(AstSelect);

#[verifier::external_type_specification]
#[verifier::external_body]
pub struct ExExpr(AstExpr);

#[verifier::external_type_specification]
#[verifier::external_body]
pub struct ExValue(AstValue);

#[verifier::external_type_specification]
#[verifier::external_body]
pub struct ExSelectItem(AstSelectItem);

#[verifier::external_type_specification]
#[verifier::external_body]
pub struct ExOrderByExpr(AstOrderByExpr);

#[verifier::external_type_specification]
#[verifier::external_body]
pub struct ExBinaryOperator(AstBinaryOperator);

#[verifier::external_type_specification]
#[verifier::external_body]
pub struct ExTableWithJoins(AstTableWithJoins);

/// Relies on `sqlparser::ast::Statement`: takes the first statement and
/// keeps it only when it is a query.
#[verifier::external_body]
fn first_query(stmts: Vec<AstStatement>) -> (r: Result<Box<AstQuery>, String>)
{
    match stmts.into_iter().next() {
        Some(AstStatement::Query(q)) => Ok(q),
        Some(other) => Err(format!("{} unsupported yet", other)),
        None => Err("empty statement".to_string()),
    }
}

/// Relies on `sqlparser::ast::Query`: moves out the select body, the
/// ORDER BY entries and the LIMIT/OFFSET expressions.
#[verifier::external_body]
fn query_parts(q: Box<AstQuery>) -> (r: Result<
    (Box<AstSelect>, Vec<AstOrderByExpr>, Option<AstExpr>, Option<AstExpr>),
    String,
>)
{
    let AstQuery { body, order_by, limit, offset, .. } = *q;
    let order = match order_by {
        Some(ob) => ob.exprs,
        None => Vec::new(),
    };
    match *body {
        sqlparser::ast::SetExpr::Select(s) => Ok((s, order, limit, offset.map(|o| o.value))),
        other => Err(format!("{} unsupported yet", other)),
    }
}

/// Relies on `sqlparser::ast::Select`: moves out the FROM list, the
/// projection and the selection.
#[verifier::external_body]
fn select_parts(s: Box<AstSelect>) -> (r: Result<
    (Vec<AstTableWithJoins>, Vec<AstSelectItem>, Option<AstExpr>),
    String,
>)
{
    let AstSelect { projection, from, selection, .. } = *s;
    Ok((from, projection, selection))
}

/// Relies on `sqlparser::ast::TableWithJoins` and `TableFactor`: keeps a
/// plain table and moves out its first name part. The `joins` emptiness
/// test is the one input-validation decision this trusted body holds: the
/// field belongs to an opaque outside type, so no verified code can read
/// it.
#[verifier::external_body]
fn table_name_of(twj: AstTableWithJoins) -> (r: Result<String, String>)
{
    let AstTableWithJoins { relation, joins } = twj;
    if joins.len() > 0 {
        return Err("Joins unsupported yet".to_string());
    }
    match relation {
        sqlparser::ast::TableFactor::Table { name, .. } => match name.0.into_iter().next() {
            Some(ident) => Ok(ident.value),
            None => Err("empty table name".to_string()),
        },
        other => Err(format!("{} unsupported yet", other)),
    }
}

/// Relies on `sqlparser::ast::BinaryOperator`: one arm per operator the
/// engine supports.
#[verifier::external_body]
fn convert_op(op: &AstBinaryOperator) -> (r: Result<SqlOp, String>)
{
    match op {
        AstBinaryOperator::Plus => Ok(SqlOp::Plus),
        AstBinaryOperator::Minus => Ok(SqlOp::Minus),
        AstBinaryOperator::Multiply => Ok(SqlOp::Multiply),
        AstBinaryOperator::Divide => Ok(SqlOp::Divide),
        AstBinaryOperator::Eq => Ok(SqlOp::Eq),
        AstBinaryOperator::NotEq => Ok(SqlOp::NotEq),
        AstBinaryOperator::Lt => Ok(SqlOp::Lt),
        AstBinaryOperator::LtEq => Ok(SqlOp::LtEq),
        AstBinaryOperator::Gt => Ok(SqlOp::Gt),
        AstBinaryOperator::GtEq => Ok(SqlOp::GtEq),
        AstBinaryOperator::And => Ok(SqlOp::And),
        AstBinaryOperator::Or => Ok(SqlOp::Or),
        other => Err(format!("Operation {} not supported yet", other)),
    }
}

/// Relies on `sqlparser::ast::Value`: the literal kinds the engine takes.
#[verifier::external_body]
fn convert_value(v: &AstValue) -> (r: Result<SqlExpr, String>)
{
    match v {
        AstValue::Number(n, _) => Ok(SqlExpr::Number(n.clone())),
        AstValue::SingleQuotedString(x) => Ok(SqlExpr::StringLit(x.clone())),
        AstValue::DoubleQuotedString(x) => Ok(SqlExpr::StringLit(x.clone())),
        other => Err(format!("Value {} not supported yet", other)),
    }
}

/// Relies on `sqlparser::ast::Expr`: one arm per supported node kind,
/// moving each field into the library's expression shape. The depth cap
/// keeps the conversion total on hand-built trees deeper than any the
/// parser's own recursion limit allows.
#[verifier::external_body]
fn convert_expr(e: &AstExpr, depth: u32) -> (r: Result<SqlExpr, String>)
{
    if depth > 1000 {
        return Err("expression too deeply nested".to_string());
    }
    let deeper = depth + 1;
    match e {
        AstExpr::Identifier(id) => Ok(SqlExpr::Ident(id.value.clone())),
        AstExpr::Value(v) => convert_value(v),
        AstExpr::BinaryOp { left, op, right } => Ok(SqlExpr::Binary(convert_op(op)?, Box::new(convert_expr(left, deeper)?), Box::new(convert_expr(right, deeper)?))),
        AstExpr::UnaryOp { op: sqlparser::ast::UnaryOperator::Not, expr } => Ok(SqlExpr::Not(Box::new(convert_expr(expr, deeper)?))),
        AstExpr::Nested(inner) => Ok(SqlExpr::Nested(Box::new(convert_expr(inner, deeper)?))),
        other => Err(format!("{} is not supported yet", other)),
    }
}

/// Relies on `sqlparser::ast::SelectItem`: a bare expression or `*`.
#[verifier::external_body]
fn convert_item(it: &AstSelectItem) -> (r: Result<SqlItem, String>)
{
    match it {
        AstSelectItem::UnnamedExpr(e) => Ok(SqlItem::Expr(convert_expr(e, 0)?)),
        AstSelectItem::Wildcard(_) => Ok(SqlItem::Wildcard),
        other => Err(format!("{} is not supported yet", other)),
    }
}

/// Relies on `sqlparser::ast::OrderByExpr`: the expression and the ASC
/// flag, true when absent.
#[verifier::external_body]
fn convert_order(o: &AstOrderByExpr) -> (r: Result<SqlOrderItem, String>)
{
    Ok(SqlOrderItem { expr: convert_expr(&o.expr, 0)?, asc: o.asc.unwrap_or(true) })
}

/// Relies on `sqlparser::ast::Expr`: a LIMIT or OFFSET value must be a
/// plain number literal, handed back as its digit string.
#[verifier::external_body]
fn limit_number(e: &AstExpr) -> (r: Result<String, String>)
{
    match e {
        AstExpr::Value(AstValue::Number(n, _)) => Ok(n.clone()),
        other => Err(format!("{} is not supported as a limit", other)),
    }
}

/// Moves one parsed SQL `SELECT` into the library's query shape. The
/// caller runs the outside parser (whose own errors and panics stay on
/// its side); everything after the returned `SqlQuery` is verified.
pub fn query_from_statements(stmts: Vec<AstStatement>) -> (r: DBResult<SqlQuery>) {
    let q = match first_query(stmts) {
        Ok(q) => q,
        Err(e) => {
            return Err(e);
        },
    };
    let (sel, order_raw, limit_raw, offset_raw) = match query_parts(q) {
        Ok(p) => p,
        Err(e) => {
            return Err(e);
        },
    };
    let (from_raw, items_raw, selection_raw) = match select_parts(sel) {
        Ok(p) => p,
        Err(e) => {
            return Err(e);
        },
    };
    if from_raw.len() != 1 {
        return Err(String::from_str("Unexpected number of tables"));
    }
    let mut from_raw = from_raw;
    let twj = from_raw.remove(0);
    let table = match table_name_of(twj) {
        Ok(t) => t,
        Err(e) => {
            return Err(e);
        },
    };
    let mut items: Vec<SqlItem> = Vec::new();
    let mut i: usize = 0;
    while i < items_raw.len()
        decreases items_raw@.len() - i,
    {
        match convert_item(&items_raw[i]) {
            Ok(it) => items.push(it),
            Err(e) => {
                return Err(e);
            },
        }
        i += 1;
    }
    let selection: Option<SqlExpr> = match selection_raw {
        Some(e) => {
            match convert_expr(&e, 0) {
                Ok(x) => Some(x),
                Err(er) => {
                    return Err(er);
                },
            }
        },
        None => None,
    };
    let mut order_by: Vec<SqlOrderItem> = Vec::new();
    let mut i: usize = 0;
    while i < order_raw.len()
        decreases order_raw@.len() - i,
    {
        match convert_order(&order_raw[i]) {
            Ok(o) => order_by.push(o),
            Err(e) => {
                return Err(e);
            },
        }
        i += 1;
    }
    let limit: Option<u64> = match limit_raw {
        Some(e) => {
            let ns = match limit_number(&e) {
                Ok(n) => n,
                Err(er) => {
                    return Err(er);
                },
            };
            match parse_u64(ns.as_str()) {
                Ok(v) => Some(v),
                Err(er) => {
                    return Err(er);
                },
            }
        },
        None => None,
    };
    let offset: Option<u64> = match offset_raw {
        Some(e) => {
            let ns = match limit_number(&e) {
                Ok(n) => n,
                Err(er) => {
                    return Err(er);
                },
            };
            match parse_u64(ns.as_str()) {
                Ok(v) => Some(v),
                Err(er) => {
                    return Err(er);
                },
            }
        },
        None => None,
    };
    Ok(SqlQuery { table, items, selection, order_by, limit, offset })
}

/// Parses an unsigned decimal literal into an i64.
pub fn parse_i64(s: &str) -> (r: DBResult<i64>)
    ensures
        match r {
            Ok(v) => all_digits(s@) && s@.len() > 0 && digits_value(s@) == v && v >= 0,
            Err(_) => !(all_digits(s@) && s@.len() > 0 && digits_value(s@) <= i64::MAX),
        },
{
    match parse_u64(s) {
        Ok(v) => {
            if v <= i64::MAX as u64 {
                Ok(v as i64)
            } else {
                Err(String::from_str("number too large"))
            }
        },
        Err(e) => Err(e),
    }
}

} // verus!
