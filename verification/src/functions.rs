use vstd::prelude::*;
use crate::types::{TypeName, Val, ValV};
use crate::columns::Column;
use crate::storage::{ColumnDataStorage, make_storage, val_cmp, val_cmp_exec};
use crate::DBResult;

pub mod arithmetic;
pub mod cmp;
pub mod boolean;
pub mod aggregate;


verus! {

use vstd::pervasive::unreached;

/// The closed set of scalar operators a query can apply.
#[derive(Clone, Copy, Debug, PartialEq, Eq, Structural)]
pub enum OpKind {
    Plus,
    Minus,
    Multiply,
    Divide,
    Eq,
    NotEq,
    Lt,
    LtEq,
    Gt,
    GtEq,
    And,
    Or,
    Not,
}

pub open spec fn op_arity(op: OpKind) -> int {
    match op {
        OpKind::Not => 1,
        _ => 2,
    }
}

/// The table of accepted operand types. Arithmetic is integer-only: float
/// arithmetic would need real floating-point work, which this engine never
/// performs; comparisons accept any one type (floats by their total order).
pub open spec fn op_accepts(op: OpKind, lt: TypeName, rt: TypeName) -> bool {
    match op {
        OpKind::Plus | OpKind::Minus | OpKind::Multiply | OpKind::Divide => lt == TypeName::DBInt
            && rt == TypeName::DBInt,
        OpKind::Eq | OpKind::NotEq | OpKind::Lt | OpKind::LtEq | OpKind::Gt | OpKind::GtEq => lt
            == rt,
        OpKind::And | OpKind::Or => lt == TypeName::DBInt && rt == TypeName::DBInt,
        OpKind::Not => lt == TypeName::DBInt,
    }
}

/// The type an accepted application produces.
pub open spec fn op_result_type(op: OpKind, lt: TypeName, rt: TypeName) -> TypeName {
    match op {
        OpKind::Plus | OpKind::Minus | OpKind::Multiply | OpKind::Divide => lt,
        _ => TypeName::DBInt,
    }
}

pub open spec fn bool_to_i(b: bool) -> i64 {
    if b {
        1
    } else {
        0
    }
}

/// Whether one element-wise application is defined (division needs a
/// divisor that is neither zero nor the one overflowing case).
pub open spec fn op_defined(op: OpKind, a: ValV, b: ValV) -> bool {
    op != OpKind::Divide || i64::checked_div(a.as_int(), b.as_int()) is Some
}

/// The element-wise meaning of each operator. Integer `+ - *` wrap on
/// overflow; comparisons yield 1 or 0 under the type's total order;
/// `AND`/`OR`/`NOT` treat exactly 1 as true and everything else as false.
pub open spec fn op_apply_spec(op: OpKind, a: ValV, b: ValV) -> ValV {
    match op {
        OpKind::Plus => ValV::I(a.as_int().wrapping_add(b.as_int())),
        OpKind::Minus => ValV::I(a.as_int().wrapping_sub(b.as_int())),
        OpKind::Multiply => ValV::I(a.as_int().wrapping_mul(b.as_int())),
        OpKind::Divide => ValV::I(
            match i64::checked_div(a.as_int(), b.as_int()) {
                Some(q) => q,
                None => 0,
            },
        ),
        OpKind::Eq => ValV::I(bool_to_i(val_cmp(a, b) is Equal)),
        OpKind::NotEq => ValV::I(bool_to_i(!(val_cmp(a, b) is Equal))),
        OpKind::Lt => ValV::I(bool_to_i(val_cmp(a, b) is Less)),
        OpKind::LtEq => ValV::I(bool_to_i(!(val_cmp(a, b) is Greater))),
        OpKind::Gt => ValV::I(bool_to_i(val_cmp(a, b) is Greater)),
        OpKind::GtEq => ValV::I(bool_to_i(!(val_cmp(a, b) is Less))),
        OpKind::And => ValV::I(bool_to_i(a == ValV::I(1) && b == ValV::I(1))),
        OpKind::Or => ValV::I(bool_to_i(a == ValV::I(1) || b == ValV::I(1))),
        OpKind::Not => ValV::I(bool_to_i(a == ValV::I(0))),
    }
}

/// Checks the operand-type table at run time.
pub fn op_accepts_exec(op: OpKind, lt: TypeName, rt: TypeName) -> (r: bool)
    ensures
        r == op_accepts(op, lt, rt),
{
    match op {
        OpKind::Plus | OpKind::Minus | OpKind::Multiply | OpKind::Divide => lt == TypeName::DBInt
            && rt == TypeName::DBInt,
        OpKind::Eq | OpKind::NotEq | OpKind::Lt | OpKind::LtEq | OpKind::Gt | OpKind::GtEq => lt
            == rt,
        OpKind::And | OpKind::Or => lt == TypeName::DBInt && rt == TypeName::DBInt,
        OpKind::Not => lt == TypeName::DBInt,
    }
}

/// A ready scalar function: an operator specialised to its operand types.
#[derive(Clone, Copy, Debug)]
pub struct RegFun {
    op: OpKind,
    lt: TypeName,
    rt: TypeName,
}

impl RegFun {
    pub closed spec fn op_spec(&self) -> OpKind {
        self.op
    }

    pub closed spec fn lt_spec(&self) -> TypeName {
        self.lt
    }

    pub closed spec fn rt_spec(&self) -> TypeName {
        self.rt
    }

    pub open spec fn wf(&self) -> bool {
        op_accepts(self.op_spec(), self.lt_spec(), self.rt_spec())
    }

    pub open spec fn result_dtype(&self) -> TypeName {
        op_result_type(self.op_spec(), self.lt_spec(), self.rt_spec())
    }

    pub fn make(op: OpKind, lt: TypeName, rt: TypeName) -> (r: RegFun)
        requires
            op_accepts(op, lt, rt),
        ensures
            r.op_spec() == op,
            r.lt_spec() == lt,
            r.rt_spec() == rt,
            r.wf(),
    {
        RegFun { op, lt, rt }
    }

    pub fn op(&self) -> (r: OpKind)
        ensures
            r == self.op_spec(),
    {
        self.op
    }

    pub fn result_type_of(&self) -> (r: TypeName)
        ensures
            r == self.result_dtype(),
    {
        match self.op {
            OpKind::Plus | OpKind::Minus | OpKind::Multiply | OpKind::Divide => self.lt,
            _ => TypeName::DBInt,
        }
    }

    pub fn arity(&self) -> (r: usize)
        ensures
            r == op_arity(self.op_spec()),
    {
        match self.op {
            OpKind::Not => 1,
            _ => 2,
        }
    }

    /// Applies the operator element-wise over the argument columns and
    /// writes the results into `dest`, replacing its rows.
    pub fn apply(&self, src: Vec<&Column>, dest: &mut Column) -> (r: DBResult<()>)
        requires
            self.wf(),
            old(dest).wf(),
            src@.len() == op_arity(self.op_spec()),
            forall|k: int| 0 <= k < src@.len() ==> (#[trigger] src@[k]).wf(),
            src@[0].dtype_spec() == self.lt_spec(),
            src@.len() == 2 ==> src@[1].dtype_spec() == self.rt_spec(),
            old(dest).dtype_spec() == self.result_dtype(),
            forall|k: int|
                0 <= k < src@.len() ==> (#[trigger] src@[k]).data_spec().len() == old(
                    dest,
                ).data_spec().len(),
        ensures
            final(dest).wf(),
            final(dest).name_spec() == old(dest).name_spec(),
            final(dest).dtype_spec() == old(dest).dtype_spec(),
            ({
                let a = src@[0].data_spec();
                let b = src@[src@.len() - 1].data_spec();
                match r {
                    Ok(()) => {
                        &&& final(dest).data_spec().len() == old(dest).data_spec().len()
                        &&& forall|i: int|
                            0 <= i < a.len() ==> final(dest).data_spec()[i] == op_apply_spec(
                                self.op_spec(),
                                a[i],
                                #[trigger] b[i],
                            )
                        &&& forall|i: int|
                            0 <= i < a.len() ==> op_defined(self.op_spec(), a[i], #[trigger] b[i])
                    },
                    Err(_) => {
                        &&& final(dest).data_spec() == old(dest).data_spec()
                        &&& self.op_spec() == OpKind::Divide
                        &&& exists|i: int|
                            0 <= i < a.len() && !op_defined(self.op_spec(), a[i], #[trigger] b[i])
                    },
                }
            }),
    {
        proof {
            src@[0].lemma_well_typed();
            if src@.len() == 2 {
                src@[1].lemma_well_typed();
            }
        }
        let n = dest.len();
        let a: &Column = src[0];
        let b: &Column = src[src.len() - 1];
        let rt = self.result_type_of();
        let mut out = make_storage(rt);
        let mut i: usize = 0;
        while i < n
            invariant
                i <= n,
                n == a.data_spec().len(),
                n == b.data_spec().len(),
                a.wf(),
                b.wf(),
                a == src@[0],
                b == src@[src@.len() - 1],
                a.dtype_spec() == self.lt_spec(),
                src@.len() == 2 ==> b.dtype_spec() == self.rt_spec(),
                self.op_spec() == OpKind::Not ==> b == a,
                self.wf(),
                dest.wf(),
                dest.name_spec() == old(dest).name_spec(),
                dest.dtype_spec() == old(dest).dtype_spec(),
                dest.data_spec() == old(dest).data_spec(),
                old(dest).dtype_spec() == self.result_dtype(),
                src@.len() == op_arity(self.op_spec()),
                out.dtype() == self.result_dtype(),
                out@.len() == i,
                forall|j: int|
                    0 <= j < i ==> out@[j] == op_apply_spec(
                        self.op_spec(),
                        a.data_spec()[j],
                        #[trigger] b.data_spec()[j],
                    ),
                forall|j: int|
                    0 <= j < i ==> op_defined(
                        self.op_spec(),
                        a.data_spec()[j],
                        #[trigger] b.data_spec()[j],
                    ),
            decreases n - i,
        {
            proof {
                a.lemma_well_typed();
                b.lemma_well_typed();
            }
            let av = a.value_at(i);
            let bv = b.value_at(i);
            let v: Val = match self.op {
                OpKind::Plus => Val::Int(int_of(&av).wrapping_add(int_of(&bv))),
                OpKind::Minus => Val::Int(int_of(&av).wrapping_sub(int_of(&bv))),
                OpKind::Multiply => Val::Int(int_of(&av).wrapping_mul(int_of(&bv))),
                OpKind::Divide => {
                    match int_of(&av).checked_div(int_of(&bv)) {
                        Some(q) => Val::Int(q),
                        None => {
                            proof {
                                assert(!op_defined(
                                    self.op_spec(),
                                    src@[0].data_spec()[i as int],
                                    #[trigger] src@[src@.len() - 1].data_spec()[i as int],
                                ));
                            }
                            return Err(String::from_str("division by zero"));
                        },
                    }
                },
                OpKind::Eq => {
                    match val_cmp_exec(&av, &bv) {
                        core::cmp::Ordering::Equal => Val::Int(1),
                        _ => Val::Int(0),
                    }
                },
                OpKind::NotEq => {
                    match val_cmp_exec(&av, &bv) {
                        core::cmp::Ordering::Equal => Val::Int(0),
                        _ => Val::Int(1),
                    }
                },
                OpKind::Lt => {
                    match val_cmp_exec(&av, &bv) {
                        core::cmp::Ordering::Less => Val::Int(1),
                        _ => Val::Int(0),
                    }
                },
                OpKind::LtEq => {
                    match val_cmp_exec(&av, &bv) {
                        core::cmp::Ordering::Greater => Val::Int(0),
                        _ => Val::Int(1),
                    }
                },
                OpKind::Gt => {
                    match val_cmp_exec(&av, &bv) {
                        core::cmp::Ordering::Greater => Val::Int(1),
                        _ => Val::Int(0),
                    }
                },
                OpKind::GtEq => {
                    match val_cmp_exec(&av, &bv) {
                        core::cmp::Ordering::Less => Val::Int(0),
                        _ => Val::Int(1),
                    }
                },
                OpKind::And => {
                    if int_of(&av) == 1 && int_of(&bv) == 1 {
                        Val::Int(1)
                    } else {
                        Val::Int(0)
                    }
                },
                OpKind::Or => {
                    if int_of(&av) == 1 || int_of(&bv) == 1 {
                        Val::Int(1)
                    } else {
                        Val::Int(0)
                    }
                },
                OpKind::Not => {
                    if int_of(&av) == 0 {
                        Val::Int(1)
                    } else {
                        Val::Int(0)
                    }
                },
            };
            proof {
                assert(v@ == op_apply_spec(
                    self.op_spec(),
                    a.data_spec()[i as int],
                    b.data_spec()[i as int],
                ));
            }
            out.push(v);
            i += 1;
        }
        dest.set_data(out);
        Ok(())
    }
}

/// The integer behind a `Val` known to be an Int.
pub fn int_of(v: &Val) -> (r: i64)
    requires
        v@.dtype() == TypeName::DBInt,
    ensures
        r == v@.as_int(),
{
    match v {
        Val::Int(x) => *x,
        _ => unreached(),
    }
}

/// A builder for one operator: validates the operand types and makes the
/// specialised function.
#[derive(Clone, Copy, Debug)]
pub struct RegFunBuilder {
    op: OpKind,
}

impl RegFunBuilder {
    pub closed spec fn op_spec(&self) -> OpKind {
        self.op
    }

    pub fn for_op(op: OpKind) -> (r: RegFunBuilder)
        ensures
            r.op_spec() == op,
    {
        RegFunBuilder { op }
    }

    /// The type the operator yields on these operand types, or the reason
    /// the combination is rejected.
    pub fn result_type(&self, src: Vec<TypeName>) -> (r: DBResult<TypeName>)
        requires
            src@.len() == op_arity(self.op_spec()),
        ensures
            match r {
                Ok(t) => op_accepts(self.op_spec(), src@[0], arg2_type(src@)) && t
                    == op_result_type(self.op_spec(), src@[0], arg2_type(src@)),
                Err(_) => !op_accepts(self.op_spec(), src@[0], arg2_type(src@)),
            },
    {
        let lt = src[0];
        let rt = if src.len() == 2 {
            src[1]
        } else {
            src[0]
        };
        if op_accepts_exec(self.op, lt, rt) {
            let f = RegFun::make(self.op, lt, rt);
            Ok(f.result_type_of())
        } else {
            let mut msg = String::from_str("operation unsupported for ");
            msg.append(lt.as_str());
            msg.append(" and ");
            msg.append(rt.as_str());
            Err(msg)
        }
    }

    /// The specialised function, or the reason the combination is rejected.
    pub fn build(&self, src: Vec<TypeName>) -> (r: DBResult<RegFun>)
        requires
            src@.len() == op_arity(self.op_spec()),
        ensures
            match r {
                Ok(f) => op_accepts(self.op_spec(), src@[0], arg2_type(src@)) && f.op_spec()
                    == self.op_spec() && f.lt_spec() == src@[0] && f.rt_spec() == arg2_type(src@)
                    && f.wf(),
                Err(_) => !op_accepts(self.op_spec(), src@[0], arg2_type(src@)),
            },
    {
        let lt = src[0];
        let rt = if src.len() == 2 {
            src[1]
        } else {
            src[0]
        };
        if op_accepts_exec(self.op, lt, rt) {
            Ok(RegFun::make(self.op, lt, rt))
        } else {
            let mut msg = String::from_str("operation unsupported for ");
            msg.append(lt.as_str());
            msg.append(" and ");
            msg.append(rt.as_str());
            Err(msg)
        }
    }
}

/// The second operand type of a builder call: the first again for a unary
/// operator.
pub open spec fn arg2_type(src: Seq<TypeName>) -> TypeName {
    if src.len() == 2 {
        src[1]
    } else {
        src[0]
    }
}

} // verus!
