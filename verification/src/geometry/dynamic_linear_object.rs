//! A matrix whose shape is chosen when it is made.

use super::algebra::{Element, Producer};
use super::linear_object::LinearObject;
use super::views::{ColIter, ColsIter, LaneIter, RowIter, RowsIter, ValueIter};
use vstd::prelude::*;

verus! {

/// A matrix of `rows_count` by `cols_count` values in a buffer on the heap.
pub struct DynamicLinearObject<T> {
    buffer: Vec<T>,
    rows_count: usize,
    cols_count: usize,
}

impl<T: Element> DynamicLinearObject<T> {
    /// A matrix of the given shape with every entry zero.
    pub fn new(rows_count: usize, cols_count: usize) -> (object: DynamicLinearObject<T>)
        requires
            rows_count * cols_count <= usize::MAX,
        ensures
            object.wf(),
            object.spec_rows_count() == rows_count,
            object.spec_cols_count() == cols_count,
            object.spec_data() == Seq::new(
                (rows_count * cols_count) as nat,
                |k: int| T::zero_value(),
            ),
    {
        let length = rows_count * cols_count;
        let mut buffer: Vec<T> = Vec::new();
        while buffer.len() < length
            invariant
                buffer@.len() <= length,
                forall|k: int| 0 <= k < buffer@.len() ==> buffer@[k] == T::zero_value(),
            decreases length - buffer@.len(),
        {
            buffer.push(T::zero());
        }
        proof {
            assert(buffer@ =~= Seq::new(length as nat, |k: int| T::zero_value()));
        }
        DynamicLinearObject { buffer, rows_count, cols_count }
    }
}

impl<T: Element> LinearObject for DynamicLinearObject<T> {
    type Value = T;

    closed spec fn wf(&self) -> bool {
        self.buffer@.len() == self.rows_count * self.cols_count
    }

    closed spec fn spec_rows_count(&self) -> nat {
        self.rows_count as nat
    }

    closed spec fn spec_cols_count(&self) -> nat {
        self.cols_count as nat
    }

    closed spec fn spec_data(&self) -> Seq<T> {
        self.buffer@
    }

    proof fn lemma_one_slot_per_entry(&self) {
    }

    fn rows_count(&self) -> (count: usize) {
        self.rows_count
    }

    fn cols_count(&self) -> (count: usize) {
        self.cols_count
    }

    fn row(&self, index: usize) -> (view: RowIter<'_, T>) {
        ValueIter::row(self.buffer.as_slice(), self.rows_count, self.cols_count, index)
    }

    fn col(&self, index: usize) -> (view: ColIter<'_, T>) {
        ValueIter::col(self.buffer.as_slice(), self.rows_count, self.cols_count, index)
    }

    fn rows(&self) -> (views: RowsIter<'_, T>) {
        LaneIter::rows(self.buffer.as_slice(), self.rows_count, self.cols_count)
    }

    fn cols(&self) -> (views: ColsIter<'_, T>) {
        LaneIter::cols(self.buffer.as_slice(), self.rows_count, self.cols_count)
    }

    fn data(&self) -> (values: ValueIter<'_, T>) {
        ValueIter::all(self.buffer.as_slice())
    }

    fn mut_data(&mut self) -> (slots: &mut [T]) {
        self.buffer.as_mut_slice()
    }
}

} // verus!
