//! What every matrix offers, and the matrix product written once against it.

use super::algebra::{products, sum_of, sum_reduce, Element, Producer};
use super::views::{
    col_of, cols_of, lemma_lane_bounds, row_of, rows_of, ColIter, ColsIter, RowIter, RowsIter,
    ValueIter,
};
use vstd::arithmetic::div_mod::lemma_fundamental_div_mod_converse;
use vstd::prelude::*;

verus! {

/// The output handed to `dot` does not have one slot per entry of the product.
#[derive(Clone, Copy, Debug, PartialEq, Eq)]
pub struct ShapeMismatch;

/// Entry `slot` of the row-major product of two matrices: the products of
/// row `slot / right_cols` of the left one and column `slot % right_cols` of
/// the right one, position by position, summed front to back from zero.
pub open spec fn dot_entry<T: Element>(
    left: Seq<T>,
    left_cols: nat,
    right: Seq<T>,
    right_rows: nat,
    right_cols: nat,
    slot: int,
) -> T {
    sum_of(
        products(
            row_of(left, left_cols, slot / (right_cols as int)),
            col_of(right, right_rows, right_cols, slot % (right_cols as int)),
        ),
    )
}

/// The row-major product of two matrices, `left_rows * right_cols` entries.
pub open spec fn dot_of<T: Element>(
    left: Seq<T>,
    left_rows: nat,
    left_cols: nat,
    right: Seq<T>,
    right_rows: nat,
    right_cols: nat,
) -> Seq<T> {
    Seq::new(
        left_rows * right_cols,
        |slot: int| dot_entry(left, left_cols, right, right_rows, right_cols, slot),
    )
}

/// The entry of the product at `(row, col)` is the sum of products of row
/// `row` of the left matrix and column `col` of the right one, and it stands
/// at flat index `row * right_cols + col`.
pub proof fn lemma_dot_entry_at<T: Element>(
    left: Seq<T>,
    left_rows: nat,
    left_cols: nat,
    right: Seq<T>,
    right_rows: nat,
    right_cols: nat,
    row: int,
    col: int,
)
    requires
        0 <= row < left_rows,
        0 <= col < right_cols,
    ensures
        0 <= row * right_cols + col < left_rows * right_cols,
        dot_of(left, left_rows, left_cols, right, right_rows, right_cols)[row * right_cols + col]
            == sum_of(
            products(row_of(left, left_cols, row), col_of(right, right_rows, right_cols, col)),
        ),
{
    lemma_lane_bounds(row, left_rows as int, right_cols as int);
    lemma_fundamental_div_mod_converse(row * right_cols + col, right_cols as int, row, col);
}

/// A dense matrix stored row-major in one flat buffer: the entry at
/// `(row, col)` is the value at flat index `row * cols_count + col`.
pub trait LinearObject {
    type Value: Element;

    /// The buffer holds exactly one value per entry.
    spec fn wf(&self) -> bool;

    /// The number of rows.
    spec fn spec_rows_count(&self) -> nat;

    /// The number of columns.
    spec fn spec_cols_count(&self) -> nat;

    /// The flat buffer, row after row.
    spec fn spec_data(&self) -> Seq<Self::Value>;

    /// A well-formed matrix holds exactly `rows * cols` values.
    proof fn lemma_one_slot_per_entry(&self)
        requires
            self.wf(),
        ensures
            self.spec_data().len() == self.spec_rows_count() * self.spec_cols_count(),
    ;

    /// The number of rows.
    fn rows_count(&self) -> (count: usize)
        requires
            self.wf(),
        ensures
            count == self.spec_rows_count(),
    ;

    /// The number of columns.
    fn cols_count(&self) -> (count: usize)
        requires
            self.wf(),
        ensures
            count == self.spec_cols_count(),
    ;

    /// A view of row `index`.
    fn row(&self, index: usize) -> (view: RowIter<'_, Self::Value>)
        requires
            self.wf(),
            index < self.spec_rows_count(),
        ensures
            view.wf(),
            view.remaining() == row_of(self.spec_data(), self.spec_cols_count(), index as int),
            view.remaining().len() == self.spec_cols_count(),
    ;

    /// A view of column `index`.
    fn col(&self, index: usize) -> (view: ColIter<'_, Self::Value>)
        requires
            self.wf(),
            index < self.spec_cols_count(),
        ensures
            view.wf(),
            view.remaining() == col_of(
                self.spec_data(),
                self.spec_rows_count(),
                self.spec_cols_count(),
                index as int,
            ),
            view.remaining().len() == self.spec_rows_count(),
    ;

    /// Views of all rows, first row first.
    fn rows(&self) -> (views: RowsIter<'_, Self::Value>)
        requires
            self.wf(),
        ensures
            views.wf(),
            views.remaining() == rows_of(
                self.spec_data(),
                self.spec_rows_count(),
                self.spec_cols_count(),
            ),
    ;

    /// Views of all columns, first column first.
    fn cols(&self) -> (views: ColsIter<'_, Self::Value>)
        requires
            self.wf(),
        ensures
            views.wf(),
            views.remaining() == cols_of(
                self.spec_data(),
                self.spec_rows_count(),
                self.spec_cols_count(),
            ),
    ;

    /// Every value, row after row.
    fn data(&self) -> (values: ValueIter<'_, Self::Value>)
        requires
            self.wf(),
        ensures
            values.wf(),
            values.remaining() == self.spec_data(),
            values.remaining().len() == self.spec_rows_count() * self.spec_cols_count(),
    ;

    /// Every slot, row after row, open to being written. The shape stays as
    /// it is whatever is written, and the matrix stays well formed as long
    /// as the slice keeps its length, which a slice does.
    fn mut_data(&mut self) -> (slots: &mut [Self::Value])
        requires
            old(self).wf(),
        ensures
            slots@ == old(self).spec_data(),
            slots@.len() == old(self).spec_rows_count() * old(self).spec_cols_count(),
            final(self).spec_data() == final(slots)@,
            final(self).spec_rows_count() == old(self).spec_rows_count(),
            final(self).spec_cols_count() == old(self).spec_cols_count(),
            final(slots)@.len() == slots@.len() ==> final(self).wf(),
    ;
}

/// The matrix product, written once for every kind of matrix.
pub trait Dot: LinearObject {
    /// Writes the product of `left` and `right` into this matrix, which must
    /// already have one slot per entry of the product. Where it has not,
    /// nothing is written and the mismatch is reported.
    fn dot<L: LinearObject<Value = Self::Value>, R: LinearObject<Value = Self::Value>>(
        &mut self,
        left: &L,
        right: &R,
    ) -> (outcome: Result<(), ShapeMismatch>)
        requires
            old(self).wf(),
            left.wf(),
            right.wf(),
        ensures
            final(self).wf(),
            final(self).spec_rows_count() == old(self).spec_rows_count(),
            final(self).spec_cols_count() == old(self).spec_cols_count(),
            outcome is Ok <==> old(self).spec_data().len() == left.spec_rows_count()
                * right.spec_cols_count(),
            outcome is Ok ==> final(self).spec_data() == dot_of(
                left.spec_data(),
                left.spec_rows_count(),
                left.spec_cols_count(),
                right.spec_data(),
                right.spec_rows_count(),
                right.spec_cols_count(),
            ),
            outcome is Err ==> final(self).spec_data() == old(self).spec_data(),
    ;
}

impl<O: LinearObject> Dot for O {
    /// Walks the rows of `left` outermost and the columns of `right` within
    /// each, and writes one sum of products per slot, row after row.
    fn dot<L: LinearObject<Value = O::Value>, R: LinearObject<Value = O::Value>>(
        &mut self,
        left: &L,
        right: &R,
    ) -> (outcome: Result<(), ShapeMismatch>) {
        let rows = left.rows_count();
        let cols = right.cols_count();
        let slots = self.mut_data();
        let available = slots.len();
        let fits = match rows.checked_mul(cols) {
            Some(needed) => needed == available,
            None => false,
        };
        if !fits {
            return Err(ShapeMismatch);
        }
        let ghost expected = dot_of(
            left.spec_data(),
            left.spec_rows_count(),
            left.spec_cols_count(),
            right.spec_data(),
            right.spec_rows_count(),
            right.spec_cols_count(),
        );
        let ghost all_rows = rows_of(
            left.spec_data(),
            left.spec_rows_count(),
            left.spec_cols_count(),
        );
        let ghost all_cols = cols_of(
            right.spec_data(),
            right.spec_rows_count(),
            right.spec_cols_count(),
        );
        let mut slot: usize = 0;
        let ghost mut i: int = 0;
        let mut left_rows = left.rows();
        loop
            invariant_except_break
                left_rows.wf(),
                0 <= i <= rows,
                left_rows.remaining() == all_rows.skip(i),
                slot == i * cols,
            invariant
                right.wf(),
                rows == left.spec_rows_count(),
                cols == right.spec_cols_count(),
                all_rows.len() == rows,
                all_cols.len() == cols,
                all_cols == cols_of(
                    right.spec_data(),
                    right.spec_rows_count(),
                    right.spec_cols_count(),
                ),
                all_rows == rows_of(
                    left.spec_data(),
                    left.spec_rows_count(),
                    left.spec_cols_count(),
                ),
                expected == dot_of(
                    left.spec_data(),
                    left.spec_rows_count(),
                    left.spec_cols_count(),
                    right.spec_data(),
                    right.spec_rows_count(),
                    right.spec_cols_count(),
                ),
                slots@.len() == rows * cols,
                slot <= slots@.len(),
                forall|k: int| 0 <= k < slot ==> slots@[k] == expected[k],
            ensures
                slot == rows * cols,
            decreases left_rows.remaining().len(),
        {
            match left_rows.next() {
                None => {
                    break ;
                },
                Some(row) => {
                    let ghost mut j: int = 0;
                    let mut right_cols = right.cols();
                    proof {
                        assert(row.remaining() == all_rows[i]);
                        assert(i < rows);
                        assert((i + 1) * cols == i * cols + cols) by (nonlinear_arith);
                        assert((i + 1) * cols <= rows * cols) by (nonlinear_arith)
                            requires
                                i + 1 <= rows,
                                0 <= cols,
                        ;
                    }
                    loop
                        invariant_except_break
                            right_cols.wf(),
                            0 <= j <= cols,
                            right_cols.remaining() == all_cols.skip(j),
                            slot == i * cols + j,
                        invariant
                            row.wf(),
                            0 <= i < rows,
                            row.remaining() == all_rows[i],
                            rows == left.spec_rows_count(),
                            cols == right.spec_cols_count(),
                            all_rows.len() == rows,
                            all_cols.len() == cols,
                            all_cols == cols_of(
                                right.spec_data(),
                                right.spec_rows_count(),
                                right.spec_cols_count(),
                            ),
                            all_rows == rows_of(
                                left.spec_data(),
                                left.spec_rows_count(),
                                left.spec_cols_count(),
                            ),
                            expected == dot_of(
                                left.spec_data(),
                                left.spec_rows_count(),
                                left.spec_cols_count(),
                                right.spec_data(),
                                right.spec_rows_count(),
                                right.spec_cols_count(),
                            ),
                            slots@.len() == rows * cols,
                            (i + 1) * cols == i * cols + cols,
                            (i + 1) * cols <= rows * cols,
                            slot <= slots@.len(),
                            forall|k: int| 0 <= k < slot ==> slots@[k] == expected[k],
                        ensures
                            slot == (i + 1) * cols,
                        decreases right_cols.remaining().len(),
                    {
                        match right_cols.next() {
                            None => {
                                break ;
                            },
                            Some(col) => {
                                let value = sum_reduce(crate::geometry::algebra::mul(row.clone(), col));
                                proof {
                                    assert(col.remaining() == all_cols[j]);
                                    lemma_fundamental_div_mod_converse(
                                        slot as int,
                                        cols as int,
                                        i,
                                        j,
                                    );
                                    assert(value == expected[slot as int]);
                                }
                                slots[slot] = value;
                                slot = slot + 1;
                                proof {
                                    assert(all_cols.skip(j).skip(1) == all_cols.skip(j + 1));
                                    j = j + 1;
                                }
                            },
                        }
                    }
                    proof {
                        assert(all_rows.skip(i).skip(1) == all_rows.skip(i + 1));
                        i = i + 1;
                    }
                },
            }
        }
        proof {
            assert(slots@ =~= expected);
        }
        Ok(())
    }
}

} // verus!
