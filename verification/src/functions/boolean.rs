use vstd::prelude::*;
use crate::types::TypeName;
use crate::functions::{OpKind, RegFun, RegFunBuilder, op_accepts, op_result_type, op_arity, arg2_type};
use crate::DBResult;

verus! {

/// Builds the element-wise conjunction of two 0/1 Int columns.
pub struct AndBuilder {}

impl AndBuilder {
    pub fn new() -> (r: AndBuilder)
        ensures
            true,
    {
        AndBuilder {  }
    }

    pub fn new_ref() -> (r: RegFunBuilder)
        ensures
            r.op_spec() == OpKind::And,
    {
        RegFunBuilder::for_op(OpKind::And)
    }

    pub fn result_type(&self, src: Vec<TypeName>) -> (r: DBResult<TypeName>)
        requires
            src@.len() == op_arity(OpKind::And),
        ensures
            match r {
                Ok(t) => op_accepts(OpKind::And, src@[0], arg2_type(src@)) && t == op_result_type(
                    OpKind::And,
                    src@[0],
                    arg2_type(src@),
                ),
                Err(_) => !op_accepts(OpKind::And, src@[0], arg2_type(src@)),
            },
    {
        RegFunBuilder::for_op(OpKind::And).result_type(src)
    }

    pub fn build(&self, src: Vec<TypeName>) -> (r: DBResult<RegFun>)
        requires
            src@.len() == op_arity(OpKind::And),
        ensures
            match r {
                Ok(f) => op_accepts(OpKind::And, src@[0], arg2_type(src@)) && f.op_spec()
                    == OpKind::And && f.lt_spec() == src@[0] && f.rt_spec() == arg2_type(src@)
                    && f.wf(),
                Err(_) => !op_accepts(OpKind::And, src@[0], arg2_type(src@)),
            },
    {
        RegFunBuilder::for_op(OpKind::And).build(src)
    }
}

/// Builds the element-wise disjunction of two 0/1 Int columns.
pub struct OrBuilder {}

impl OrBuilder {
    pub fn new() -> (r: OrBuilder)
        ensures
            true,
    {
        OrBuilder {  }
    }

    pub fn new_ref() -> (r: RegFunBuilder)
        ensures
            r.op_spec() == OpKind::Or,
    {
        RegFunBuilder::for_op(OpKind::Or)
    }

    pub fn result_type(&self, src: Vec<TypeName>) -> (r: DBResult<TypeName>)
        requires
            src@.len() == op_arity(OpKind::Or),
        ensures
            match r {
                Ok(t) => op_accepts(OpKind::Or, src@[0], arg2_type(src@)) && t == op_result_type(
                    OpKind::Or,
                    src@[0],
                    arg2_type(src@),
                ),
                Err(_) => !op_accepts(OpKind::Or, src@[0], arg2_type(src@)),
            },
    {
        RegFunBuilder::for_op(OpKind::Or).result_type(src)
    }

    pub fn build(&self, src: Vec<TypeName>) -> (r: DBResult<RegFun>)
        requires
            src@.len() == op_arity(OpKind::Or),
        ensures
            match r {
                Ok(f) => op_accepts(OpKind::Or, src@[0], arg2_type(src@)) && f.op_spec()
                    == OpKind::Or && f.lt_spec() == src@[0] && f.rt_spec() == arg2_type(src@)
                    && f.wf(),
                Err(_) => !op_accepts(OpKind::Or, src@[0], arg2_type(src@)),
            },
    {
        RegFunBuilder::for_op(OpKind::Or).build(src)
    }
}

/// Builds the element-wise negation of one 0/1 Int column.
pub struct NotBuilder {}

impl NotBuilder {
    pub fn new() -> (r: NotBuilder)
        ensures
            true,
    {
        NotBuilder {  }
    }

    pub fn new_ref() -> (r: RegFunBuilder)
        ensures
            r.op_spec() == OpKind::Not,
    {
        RegFunBuilder::for_op(OpKind::Not)
    }

    pub fn result_type(&self, src: Vec<TypeName>) -> (r: DBResult<TypeName>)
        requires
            src@.len() == op_arity(OpKind::Not),
        ensures
            match r {
                Ok(t) => op_accepts(OpKind::Not, src@[0], arg2_type(src@)) && t == op_result_type(
                    OpKind::Not,
                    src@[0],
                    arg2_type(src@),
                ),
                Err(_) => !op_accepts(OpKind::Not, src@[0], arg2_type(src@)),
            },
    {
        RegFunBuilder::for_op(OpKind::Not).result_type(src)
    }

    pub fn build(&self, src: Vec<TypeName>) -> (r: DBResult<RegFun>)
        requires
            src@.len() == op_arity(OpKind::Not),
        ensures
            match r {
                Ok(f) => op_accepts(OpKind::Not, src@[0], arg2_type(src@)) && f.op_spec()
                    == OpKind::Not && f.lt_spec() == src@[0] && f.rt_spec() == arg2_type(src@)
                    && f.wf(),
                Err(_) => !op_accepts(OpKind::Not, src@[0], arg2_type(src@)),
            },
    {
        RegFunBuilder::for_op(OpKind::Not).build(src)
    }
}

} // verus!
