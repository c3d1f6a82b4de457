use vstd::prelude::*;
use crate::types::TypeName;
use crate::functions::{OpKind, RegFun, RegFunBuilder, op_accepts, op_result_type, op_arity, arg2_type};
use crate::DBResult;

verus! {

/// Builds element-wise wrapping addition of two Int columns.
pub struct PlusBuilder {}

impl PlusBuilder {
    pub fn new() -> (r: PlusBuilder)
        ensures
            true,
    {
        PlusBuilder {  }
    }

    pub fn new_ref() -> (r: RegFunBuilder)
        ensures
            r.op_spec() == OpKind::Plus,
    {
        RegFunBuilder::for_op(OpKind::Plus)
    }

    pub fn result_type(&self, src: Vec<TypeName>) -> (r: DBResult<TypeName>)
        requires
            src@.len() == op_arity(OpKind::Plus),
        ensures
            match r {
                Ok(t) => op_accepts(OpKind::Plus, src@[0], arg2_type(src@)) && t == op_result_type(
                    OpKind::Plus,
                    src@[0],
                    arg2_type(src@),
                ),
                Err(_) => !op_accepts(OpKind::Plus, src@[0], arg2_type(src@)),
            },
    {
        RegFunBuilder::for_op(OpKind::Plus).result_type(src)
    }

    pub fn build(&self, src: Vec<TypeName>) -> (r: DBResult<RegFun>)
        requires
            src@.len() == op_arity(OpKind::Plus),
        ensures
            match r {
                Ok(f) => op_accepts(OpKind::Plus, src@[0], arg2_type(src@)) && f.op_spec()
                    == OpKind::Plus && f.lt_spec() == src@[0] && f.rt_spec() == arg2_type(src@)
                    && f.wf(),
                Err(_) => !op_accepts(OpKind::Plus, src@[0], arg2_type(src@)),
            },
    {
        RegFunBuilder::for_op(OpKind::Plus).build(src)
    }
}

/// Builds element-wise wrapping subtraction of two Int columns.
pub struct MinusBuilder {}

impl MinusBuilder {
    pub fn new() -> (r: MinusBuilder)
        ensures
            true,
    {
        MinusBuilder {  }
    }

    pub fn new_ref() -> (r: RegFunBuilder)
        ensures
            r.op_spec() == OpKind::Minus,
    {
        RegFunBuilder::for_op(OpKind::Minus)
    }

    pub fn result_type(&self, src: Vec<TypeName>) -> (r: DBResult<TypeName>)
        requires
            src@.len() == op_arity(OpKind::Minus),
        ensures
            match r {
                Ok(t) => op_accepts(OpKind::Minus, src@[0], arg2_type(src@)) && t == op_result_type(
                    OpKind::Minus,
                    src@[0],
                    arg2_type(src@),
                ),
                Err(_) => !op_accepts(OpKind::Minus, src@[0], arg2_type(src@)),
            },
    {
        RegFunBuilder::for_op(OpKind::Minus).result_type(src)
    }

    pub fn build(&self, src: Vec<TypeName>) -> (r: DBResult<RegFun>)
        requires
            src@.len() == op_arity(OpKind::Minus),
        ensures
            match r {
                Ok(f) => op_accepts(OpKind::Minus, src@[0], arg2_type(src@)) && f.op_spec()
                    == OpKind::Minus && f.lt_spec() == src@[0] && f.rt_spec() == arg2_type(src@)
                    && f.wf(),
                Err(_) => !op_accepts(OpKind::Minus, src@[0], arg2_type(src@)),
            },
    {
        RegFunBuilder::for_op(OpKind::Minus).build(src)
    }
}

/// Builds element-wise wrapping multiplication of two Int columns.
pub struct MultiplyBuilder {}

impl MultiplyBuilder {
    pub fn new() -> (r: MultiplyBuilder)
        ensures
            true,
    {
        MultiplyBuilder {  }
    }

    pub fn new_ref() -> (r: RegFunBuilder)
        ensures
            r.op_spec() == OpKind::Multiply,
    {
        RegFunBuilder::for_op(OpKind::Multiply)
    }

    pub fn result_type(&self, src: Vec<TypeName>) -> (r: DBResult<TypeName>)
        requires
            src@.len() == op_arity(OpKind::Multiply),
        ensures
            match r {
                Ok(t) => op_accepts(OpKind::Multiply, src@[0], arg2_type(src@)) && t == op_result_type(
                    OpKind::Multiply,
                    src@[0],
                    arg2_type(src@),
                ),
                Err(_) => !op_accepts(OpKind::Multiply, src@[0], arg2_type(src@)),
            },
    {
        RegFunBuilder::for_op(OpKind::Multiply).result_type(src)
    }

    pub fn build(&self, src: Vec<TypeName>) -> (r: DBResult<RegFun>)
        requires
            src@.len() == op_arity(OpKind::Multiply),
        ensures
            match r {
                Ok(f) => op_accepts(OpKind::Multiply, src@[0], arg2_type(src@)) && f.op_spec()
                    == OpKind::Multiply && f.lt_spec() == src@[0] && f.rt_spec() == arg2_type(src@)
                    && f.wf(),
                Err(_) => !op_accepts(OpKind::Multiply, src@[0], arg2_type(src@)),
            },
    {
        RegFunBuilder::for_op(OpKind::Multiply).build(src)
    }
}

/// Builds element-wise truncating division of two Int columns.
pub struct DivideBuilder {}

impl DivideBuilder {
    pub fn new() -> (r: DivideBuilder)
        ensures
            true,
    {
        DivideBuilder {  }
    }

    pub fn new_ref() -> (r: RegFunBuilder)
        ensures
            r.op_spec() == OpKind::Divide,
    {
        RegFunBuilder::for_op(OpKind::Divide)
    }

    pub fn result_type(&self, src: Vec<TypeName>) -> (r: DBResult<TypeName>)
        requires
            src@.len() == op_arity(OpKind::Divide),
        ensures
            match r {
                Ok(t) => op_accepts(OpKind::Divide, src@[0], arg2_type(src@)) && t == op_result_type(
                    OpKind::Divide,
                    src@[0],
                    arg2_type(src@),
                ),
                Err(_) => !op_accepts(OpKind::Divide, src@[0], arg2_type(src@)),
            },
    {
        RegFunBuilder::for_op(OpKind::Divide).result_type(src)
    }

    pub fn build(&self, src: Vec<TypeName>) -> (r: DBResult<RegFun>)
        requires
            src@.len() == op_arity(OpKind::Divide),
        ensures
            match r {
                Ok(f) => op_accepts(OpKind::Divide, src@[0], arg2_type(src@)) && f.op_spec()
                    == OpKind::Divide && f.lt_spec() == src@[0] && f.rt_spec() == arg2_type(src@)
                    && f.wf(),
                Err(_) => !op_accepts(OpKind::Divide, src@[0], arg2_type(src@)),
            },
    {
        RegFunBuilder::for_op(OpKind::Divide).build(src)
    }
}

} // verus!
