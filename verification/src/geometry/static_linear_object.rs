//! Matrices whose shape is part of their type.

use super::algebra::{Element, Producer};
use super::linear_object::LinearObject;
use super::views::{ColIter, ColsIter, LaneIter, RowIter, RowsIter, ValueIter};
use vstd::prelude::*;

verus! {

/// A matrix of `ROWS` by `COLS` values held in place, in an array of `SIZE`
/// values. The shape is not stored: it is read off the type. Only a type with
/// `SIZE == ROWS * COLS` has values.
pub struct StaticLinearObject<T, const ROWS: usize, const COLS: usize, const SIZE: usize> {
    buffer: [T; SIZE],
}

/// The matrix of one row and one column.
pub type Scalar<T> = StaticLinearObject<T, 1, 1, 1>;

impl<T: Element, const ROWS: usize, const COLS: usize, const SIZE: usize> StaticLinearObject<
    T,
    ROWS,
    COLS,
    SIZE,
> {
    /// A matrix with every entry zero, or `None` where the array of the type
    /// does not hold exactly one value per entry.
    pub fn new() -> (made: Option<Self>)
        ensures
            made is Some <==> ROWS * COLS == SIZE,
            made is Some ==> {
                let object = made->Some_0;
                &&& object.wf()
                &&& object.spec_rows_count() == ROWS
                &&& object.spec_cols_count() == COLS
                &&& object.spec_data() == Seq::new(SIZE as nat, |k: int| T::zero_value())
            },
    {
        match ROWS.checked_mul(COLS) {
            Some(needed) => {
                if needed == SIZE {
                    let object = StaticLinearObject { buffer: [T::zero();SIZE] };
                    proof {
                        assert(object.buffer@ =~= Seq::new(SIZE as nat, |k: int| T::zero_value()));
                    }
                    Some(object)
                } else {
                    None
                }
            },
            None => None,
        }
    }
}

impl<T: Element, const ROWS: usize, const COLS: usize, const SIZE: usize> LinearObject for StaticLinearObject<
    T,
    ROWS,
    COLS,
    SIZE,
> {
    type Value = T;

    closed spec fn wf(&self) -> bool {
        SIZE == ROWS * COLS
    }

    open spec fn spec_rows_count(&self) -> nat {
        ROWS as nat
    }

    open spec fn spec_cols_count(&self) -> nat {
        COLS as nat
    }

    closed spec fn spec_data(&self) -> Seq<T> {
        self.buffer@
    }

    proof fn lemma_one_slot_per_entry(&self) {
    }

    fn rows_count(&self) -> (count: usize) {
        ROWS
    }

    fn cols_count(&self) -> (count: usize) {
        COLS
    }

    fn row(&self, index: usize) -> (view: RowIter<'_, T>) {
        ValueIter::row(self.buffer.as_slice(), ROWS, COLS, index)
    }

    fn col(&self, index: usize) -> (view: ColIter<'_, T>) {
        ValueIter::col(self.buffer.as_slice(), ROWS, COLS, index)
    }

    fn rows(&self) -> (views: RowsIter<'_, T>) {
        LaneIter::rows(self.buffer.as_slice(), ROWS, COLS)
    }

    fn cols(&self) -> (views: ColsIter<'_, T>) {
        LaneIter::cols(self.buffer.as_slice(), ROWS, COLS)
    }

    fn data(&self) -> (values: ValueIter<'_, T>) {
        ValueIter::all(self.buffer.as_slice())
    }

    fn mut_data(&mut self) -> (slots: &mut [T]) {
        let slots: &mut [T] = &mut self.buffer;
        slots
    }
}

} // verus!
