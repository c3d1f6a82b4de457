use vstd::prelude::*;
use crate::types::TypeName;

verus! {

/// An ordered list of scalar types, describing the shape of one row.
pub struct DBTuple {
    types: Vec<TypeName>,
}

impl DBTuple {
    pub fn new(types: Vec<TypeName>) -> (r: DBTuple)
        ensures
            r.types_spec() == types@,
    {
        DBTuple { types }
    }

    pub closed spec fn types_spec(&self) -> Seq<TypeName> {
        self.types@
    }

    pub fn len(&self) -> (r: usize)
        ensures
            r == self.types_spec().len(),
    {
        self.types.len()
    }

    pub fn type_at(&self, i: usize) -> (r: TypeName)
        requires
            i < self.types_spec().len(),
        ensures
            r == self.types_spec()[i as int],
    {
        self.types[i]
    }
}

} // verus!
