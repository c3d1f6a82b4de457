use vstd::prelude::*;
use crate::types::TypeName;
use crate::functions::{OpKind, RegFun, RegFunBuilder, op_accepts, op_result_type, op_arity, arg2_type};
use crate::DBResult;

verus! {

/// Builds the element-wise equality test, yielding 1 or 0.
pub struct EqualBuilder {}

impl EqualBuilder {
    pub fn new() -> (r: EqualBuilder)
        ensures
            true,
    {
        EqualBuilder {  }
    }

    pub fn new_ref() -> (r: RegFunBuilder)
        ensures
            r.op_spec() == OpKind::Eq,
    {
        RegFunBuilder::for_op(OpKind::Eq)
    }

    pub fn result_type(&self, src: Vec<TypeName>) -> (r: DBResult<TypeName>)
        requires
            src@.len() == op_arity(OpKind::Eq),
        ensures
            match r {
                Ok(t) => op_accepts(OpKind::Eq, src@[0], arg2_type(src@)) && t == op_result_type(
                    OpKind::Eq,
                    src@[0],
                    arg2_type(src@),
                ),
                Err(_) => !op_accepts(OpKind::Eq, src@[0], arg2_type(src@)),
            },
    {
        RegFunBuilder::for_op(OpKind::Eq).result_type(src)
    }

    pub fn build(&self, src: Vec<TypeName>) -> (r: DBResult<RegFun>)
        requires
            src@.len() == op_arity(OpKind::Eq),
        ensures
            match r {
                Ok(f) => op_accepts(OpKind::Eq, src@[0], arg2_type(src@)) && f.op_spec()
                    == OpKind::Eq && f.lt_spec() == src@[0] && f.rt_spec() == arg2_type(src@)
                    && f.wf(),
                Err(_) => !op_accepts(OpKind::Eq, src@[0], arg2_type(src@)),
            },
    {
        RegFunBuilder::for_op(OpKind::Eq).build(src)
    }
}

/// Builds the element-wise inequality test, yielding 1 or 0.
pub struct NotEqualBuilder {}

impl NotEqualBuilder {
    pub fn new() -> (r: NotEqualBuilder)
        ensures
            true,
    {
        NotEqualBuilder {  }
    }

    pub fn new_ref() -> (r: RegFunBuilder)
        ensures
            r.op_spec() == OpKind::NotEq,
    {
        RegFunBuilder::for_op(OpKind::NotEq)
    }

    pub fn result_type(&self, src: Vec<TypeName>) -> (r: DBResult<TypeName>)
        requires
            src@.len() == op_arity(OpKind::NotEq),
        ensures
            match r {
                Ok(t) => op_accepts(OpKind::NotEq, src@[0], arg2_type(src@)) && t == op_result_type(
                    OpKind::NotEq,
                    src@[0],
                    arg2_type(src@),
                ),
                Err(_) => !op_accepts(OpKind::NotEq, src@[0], arg2_type(src@)),
            },
    {
        RegFunBuilder::for_op(OpKind::NotEq).result_type(src)
    }

    pub fn build(&self, src: Vec<TypeName>) -> (r: DBResult<RegFun>)
        requires
            src@.len() == op_arity(OpKind::NotEq),
        ensures
            match r {
                Ok(f) => op_accepts(OpKind::NotEq, src@[0], arg2_type(src@)) && f.op_spec()
                    == OpKind::NotEq && f.lt_spec() == src@[0] && f.rt_spec() == arg2_type(src@)
                    && f.wf(),
                Err(_) => !op_accepts(OpKind::NotEq, src@[0], arg2_type(src@)),
            },
    {
        RegFunBuilder::for_op(OpKind::NotEq).build(src)
    }
}

/// Builds the element-wise strict-less test under the type's total order.
pub struct LessBuilder {}

impl LessBuilder {
    pub fn new() -> (r: LessBuilder)
        ensures
            true,
    {
        LessBuilder {  }
    }

    pub fn new_ref() -> (r: RegFunBuilder)
        ensures
            r.op_spec() == OpKind::Lt,
    {
        RegFunBuilder::for_op(OpKind::Lt)
    }

    pub fn result_type(&self, src: Vec<TypeName>) -> (r: DBResult<TypeName>)
        requires
            src@.len() == op_arity(OpKind::Lt),
        ensures
            match r {
                Ok(t) => op_accepts(OpKind::Lt, src@[0], arg2_type(src@)) && t == op_result_type(
                    OpKind::Lt,
                    src@[0],
                    arg2_type(src@),
                ),
                Err(_) => !op_accepts(OpKind::Lt, src@[0], arg2_type(src@)),
            },
    {
        RegFunBuilder::for_op(OpKind::Lt).result_type(src)
    }

    pub fn build(&self, src: Vec<TypeName>) -> (r: DBResult<RegFun>)
        requires
            src@.len() == op_arity(OpKind::Lt),
        ensures
            match r {
                Ok(f) => op_accepts(OpKind::Lt, src@[0], arg2_type(src@)) && f.op_spec()
                    == OpKind::Lt && f.lt_spec() == src@[0] && f.rt_spec() == arg2_type(src@)
                    && f.wf(),
                Err(_) => !op_accepts(OpKind::Lt, src@[0], arg2_type(src@)),
            },
    {
        RegFunBuilder::for_op(OpKind::Lt).build(src)
    }
}

/// Builds the element-wise less-or-equal test under the type's total order.
pub struct LessEqualBuilder {}

impl LessEqualBuilder {
    pub fn new() -> (r: LessEqualBuilder)
        ensures
            true,
    {
        LessEqualBuilder {  }
    }

    pub fn new_ref() -> (r: RegFunBuilder)
        ensures
            r.op_spec() == OpKind::LtEq,
    {
        RegFunBuilder::for_op(OpKind::LtEq)
    }

    pub fn result_type(&self, src: Vec<TypeName>) -> (r: DBResult<TypeName>)
        requires
            src@.len() == op_arity(OpKind::LtEq),
        ensures
            match r {
                Ok(t) => op_accepts(OpKind::LtEq, src@[0], arg2_type(src@)) && t == op_result_type(
                    OpKind::LtEq,
                    src@[0],
                    arg2_type(src@),
                ),
                Err(_) => !op_accepts(OpKind::LtEq, src@[0], arg2_type(src@)),
            },
    {
        RegFunBuilder::for_op(OpKind::LtEq).result_type(src)
    }

    pub fn build(&self, src: Vec<TypeName>) -> (r: DBResult<RegFun>)
        requires
            src@.len() == op_arity(OpKind::LtEq),
        ensures
            match r {
                Ok(f) => op_accepts(OpKind::LtEq, src@[0], arg2_type(src@)) && f.op_spec()
                    == OpKind::LtEq && f.lt_spec() == src@[0] && f.rt_spec() == arg2_type(src@)
                    && f.wf(),
                Err(_) => !op_accepts(OpKind::LtEq, src@[0], arg2_type(src@)),
            },
    {
        RegFunBuilder::for_op(OpKind::LtEq).build(src)
    }
}

/// Builds the element-wise strict-greater test under the type's total order.
pub struct GreaterBuilder {}

impl GreaterBuilder {
    pub fn new() -> (r: GreaterBuilder)
        ensures
            true,
    {
        GreaterBuilder {  }
    }

    pub fn new_ref() -> (r: RegFunBuilder)
        ensures
            r.op_spec() == OpKind::Gt,
    {
        RegFunBuilder::for_op(OpKind::Gt)
    }

    pub fn result_type(&self, src: Vec<TypeName>) -> (r: DBResult<TypeName>)
        requires
            src@.len() == op_arity(OpKind::Gt),
        ensures
            match r {
                Ok(t) => op_accepts(OpKind::Gt, src@[0], arg2_type(src@)) && t == op_result_type(
                    OpKind::Gt,
                    src@[0],
                    arg2_type(src@),
                ),
                Err(_) => !op_accepts(OpKind::Gt, src@[0], arg2_type(src@)),
            },
    {
        RegFunBuilder::for_op(OpKind::Gt).result_type(src)
    }

    pub fn build(&self, src: Vec<TypeName>) -> (r: DBResult<RegFun>)
        requires
            src@.len() == op_arity(OpKind::Gt),
        ensures
            match r {
                Ok(f) => op_accepts(OpKind::Gt, src@[0], arg2_type(src@)) && f.op_spec()
                    == OpKind::Gt && f.lt_spec() == src@[0] && f.rt_spec() == arg2_type(src@)
                    && f.wf(),
                Err(_) => !op_accepts(OpKind::Gt, src@[0], arg2_type(src@)),
            },
    {
        RegFunBuilder::for_op(OpKind::Gt).build(src)
    }
}

/// Builds the element-wise greater-or-equal test under the type's total order.
pub struct GreaterEqualBuilder {}

impl GreaterEqualBuilder {
    pub fn new() -> (r: GreaterEqualBuilder)
        ensures
            true,
    {
        GreaterEqualBuilder {  }
    }

    pub fn new_ref() -> (r: RegFunBuilder)
        ensures
            r.op_spec() == OpKind::GtEq,
    {
        RegFunBuilder::for_op(OpKind::GtEq)
    }

    pub fn result_type(&self, src: Vec<TypeName>) -> (r: DBResult<TypeName>)
        requires
            src@.len() == op_arity(OpKind::GtEq),
        ensures
            match r {
                Ok(t) => op_accepts(OpKind::GtEq, src@[0], arg2_type(src@)) && t == op_result_type(
                    OpKind::GtEq,
                    src@[0],
                    arg2_type(src@),
                ),
                Err(_) => !op_accepts(OpKind::GtEq, src@[0], arg2_type(src@)),
            },
    {
        RegFunBuilder::for_op(OpKind::GtEq).result_type(src)
    }

    pub fn build(&self, src: Vec<TypeName>) -> (r: DBResult<RegFun>)
        requires
            src@.len() == op_arity(OpKind::GtEq),
        ensures
            match r {
                Ok(f) => op_accepts(OpKind::GtEq, src@[0], arg2_type(src@)) && f.op_spec()
                    == OpKind::GtEq && f.lt_spec() == src@[0] && f.rt_spec() == arg2_type(src@)
                    && f.wf(),
                Err(_) => !op_accepts(OpKind::GtEq, src@[0], arg2_type(src@)),
            },
    {
        RegFunBuilder::for_op(OpKind::GtEq).build(src)
    }
}

} // verus!
