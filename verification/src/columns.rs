use vstd::prelude::*;
use crate::types::{TypeName, Val, ValV};
use crate::storage::{ColumnDataStorage, make_storage, fit_len, resize_spec, filtered_seq, ones};
use crate::types::default_val_spec;

verus! {

/// A column's name and scalar type.
pub struct ColumnHeader {
    name: String,
    dtype: TypeName,
}

impl ColumnHeader {
    pub fn new(name: &str, dtype: TypeName) -> (r: ColumnHeader)
        ensures
            r.name_spec() == name@,
            r.dtype_spec() == dtype,
    {
        ColumnHeader { name: String::from_str(name), dtype }
    }

    pub closed spec fn name_spec(&self) -> Seq<char> {
        self.name@
    }

    pub closed spec fn dtype_spec(&self) -> TypeName {
        self.dtype
    }

    pub fn name(&self) -> (r: &str)
        ensures
            r@ == self.name_spec(),
    {
        self.name.as_str()
    }

    pub fn dtype(&self) -> (r: TypeName)
        ensures
            r == self.dtype_spec(),
    {
        self.dtype
    }
}

impl Clone for ColumnHeader {
    fn clone(&self) -> (r: Self)
        ensures
            r.name_spec() == self.name_spec(),
            r.dtype_spec() == self.dtype_spec(),
    {
        ColumnHeader { name: self.name.clone(), dtype: self.dtype }
    }
}

/// A named, typed column: a header paired with its data.
pub struct Column {
    header: ColumnHeader,
    data: ColumnDataStorage,
}

impl Column {
    /// The header's type always matches the data's type.
    pub closed spec fn wf(&self) -> bool {
        self.header.dtype_spec() == self.data.dtype()
    }

    pub closed spec fn name_spec(&self) -> Seq<char> {
        self.header.name_spec()
    }

    pub closed spec fn dtype_spec(&self) -> TypeName {
        self.header.dtype_spec()
    }

    pub closed spec fn data_spec(&self) -> Seq<ValV> {
        self.data@
    }

    /// Every stored value carries the column's own type.
    pub proof fn lemma_well_typed(&self)
        requires
            self.wf(),
        ensures
            forall|i: int|
                0 <= i < self.data_spec().len() ==> (#[trigger] self.data_spec()[i]).dtype()
                    == self.dtype_spec(),
    {
        self.data.lemma_well_typed();
    }

    pub fn new(header: ColumnHeader) -> (r: Column)
        ensures
            r.wf(),
            r.name_spec() == header.name_spec(),
            r.dtype_spec() == header.dtype_spec(),
            r.data_spec() =~= Seq::<ValV>::empty(),
    {
        let dtype = header.dtype();
        Column { header, data: make_storage(dtype) }
    }

    pub fn header(&self) -> (r: &ColumnHeader)
        ensures
            r.name_spec() == self.name_spec(),
            r.dtype_spec() == self.dtype_spec(),
    {
        &self.header
    }

    pub fn name(&self) -> (r: &str)
        ensures
            r@ == self.name_spec(),
    {
        self.header.name()
    }

    pub fn dtype(&self) -> (r: TypeName)
        ensures
            r == self.dtype_spec(),
    {
        self.header.dtype()
    }

    pub fn data_ref(&self) -> (r: &ColumnDataStorage)
        ensures
            r@ == self.data_spec(),
            r.dtype() == self.dtype_spec() || !self.wf(),
    {
        &self.data
    }

    /// Swaps in a whole new data vector of the column's type.
    pub fn set_data(&mut self, data: ColumnDataStorage)
        requires
            old(self).wf(),
            data.dtype() == old(self).dtype_spec(),
        ensures
            final(self).wf(),
            final(self).name_spec() == old(self).name_spec(),
            final(self).dtype_spec() == old(self).dtype_spec(),
            final(self).data_spec() == data@,
    {
        self.data = data;
    }

    /// Hands the data out, leaving an empty storage of the same type behind.
    pub fn take_data(&mut self) -> (r: ColumnDataStorage)
        requires
            old(self).wf(),
        ensures
            final(self).wf(),
            final(self).name_spec() == old(self).name_spec(),
            final(self).dtype_spec() == old(self).dtype_spec(),
            final(self).data_spec() =~= Seq::<ValV>::empty(),
            r@ == old(self).data_spec(),
            r.dtype() == old(self).dtype_spec(),
    {
        let dtype = self.header.dtype();
        let mut taken = make_storage(dtype);
        core::mem::swap(&mut self.data, &mut taken);
        taken
    }

    /// A fresh, empty column with the same header.
    pub fn clone_empty(&self) -> (r: Column)
        ensures
            r.wf(),
            r.name_spec() == self.name_spec(),
            r.dtype_spec() == self.dtype_spec(),
            r.data_spec() =~= Seq::<ValV>::empty(),
    {
        Column::new(self.header.clone())
    }

    pub fn len(&self) -> (r: usize)
        ensures
            r == self.data_spec().len(),
    {
        self.data.len()
    }

    pub fn push(&mut self, val: Val)
        requires
            old(self).wf(),
            old(self).dtype_spec() == val@.dtype(),
        ensures
            final(self).wf(),
            final(self).name_spec() == old(self).name_spec(),
            final(self).dtype_spec() == old(self).dtype_spec(),
            final(self).data_spec() =~= old(self).data_spec() + seq![val@],
    {
        self.data.push(val);
    }

    pub fn value_at(&self, i: usize) -> (r: Val)
        requires
            i < self.data_spec().len(),
        ensures
            r@ == self.data_spec()[i as int],
    {
        self.data.value_at(i)
    }

    pub fn resize(&mut self, size: usize)
        requires
            old(self).wf(),
        ensures
            final(self).wf(),
            final(self).name_spec() == old(self).name_spec(),
            final(self).dtype_spec() == old(self).dtype_spec(),
            final(self).data_spec() =~= resize_spec(
                old(self).data_spec(),
                size as int,
                default_val_spec(old(self).dtype_spec()),
            ),
    {
        self.data.resize(size);
    }

    pub fn fit_offset_limit(&mut self, offset: usize, limit: Option<usize>)
        requires
            old(self).wf(),
            offset <= old(self).data_spec().len(),
        ensures
            final(self).wf(),
            final(self).name_spec() == old(self).name_spec(),
            final(self).dtype_spec() == old(self).dtype_spec(),
            final(self).data_spec() =~= old(self).data_spec().subrange(
                offset as int,
                offset + fit_len(old(self).data_spec().len() as int, offset as int, limit),
            ),
    {
        self.data.fit_offset_limit(offset, limit);
    }

    pub fn copy_to(&self, dest: &mut Column, offset: usize)
        requires
            old(dest).wf(),
            self.dtype_spec() == old(dest).dtype_spec(),
            self.wf(),
            offset <= old(dest).data_spec().len(),
        ensures
            final(dest).wf(),
            final(dest).name_spec() == old(dest).name_spec(),
            final(dest).dtype_spec() == old(dest).dtype_spec(),
            ({
                let m = if self.data_spec().len() <= old(dest).data_spec().len() - offset {
                    self.data_spec().len() as int
                } else {
                    old(dest).data_spec().len() - offset
                };
                final(dest).data_spec() =~= old(dest).data_spec().take(offset as int)
                    + self.data_spec().take(m) + old(dest).data_spec().skip(offset + m)
            }),
    {
        self.data.copy_to(&mut dest.data, offset);
    }

    pub fn copy_filtered_to(&self, dest: &mut Column, offset: usize, filter: &Column)
        requires
            old(dest).wf(),
            self.wf(),
            filter.wf(),
            self.dtype_spec() == old(dest).dtype_spec(),
            filter.dtype_spec() == TypeName::DBInt,
            filter.data_spec().len() == self.data_spec().len(),
            offset + ones(filter.data_spec()) <= old(dest).data_spec().len(),
        ensures
            final(dest).wf(),
            final(dest).name_spec() == old(dest).name_spec(),
            final(dest).dtype_spec() == old(dest).dtype_spec(),
            final(dest).data_spec() =~= old(dest).data_spec().take(offset as int) + filtered_seq(
                self.data_spec(),
                filter.data_spec(),
            ) + old(dest).data_spec().skip(offset + ones(filter.data_spec())),
    {
        self.data.copy_filtered_to(&mut dest.data, offset, &filter.data);
    }

    pub fn elems_cmp(&self, a_index: usize, b_index: usize) -> (r: core::cmp::Ordering)
        requires
            a_index < self.data_spec().len(),
            b_index < self.data_spec().len(),
        ensures
            r == crate::storage::val_cmp(
                self.data_spec()[a_index as int],
                self.data_spec()[b_index as int],
            ),
    {
        self.data.elems_cmp(a_index, b_index)
    }

    pub fn permute(&mut self, perms: &Vec<usize>)
        requires
            old(self).wf(),
            forall|k: int|
                0 <= k < perms@.len() ==> (#[trigger] perms@[k]) < old(self).data_spec().len(),
        ensures
            final(self).wf(),
            final(self).name_spec() == old(self).name_spec(),
            final(self).dtype_spec() == old(self).dtype_spec(),
            final(self).data_spec() =~= Seq::new(
                perms@.len(),
                |k: int| old(self).data_spec()[perms@[k] as int],
            ),
    {
        self.data.permute(perms);
    }
}

} // verus!
