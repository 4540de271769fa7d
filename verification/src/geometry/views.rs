//! Borrowed views over a flat row-major buffer: single rows and columns, and
//! the producers that hand them out one after another.

use super::algebra::Producer;
use vstd::prelude::*;

verus! {

/// The `count` values of `data` found at `start`, `start + step`,
/// `start + 2 * step`, and so on.
pub open spec fn strided<T>(data: Seq<T>, start: int, step: int, count: nat) -> Seq<T> {
    Seq::new(count, |k: int| data[start + k * step])
}

/// Row `index` of a row-major buffer with `cols` columns: the contiguous run
/// of flat indices from `index * cols` up to, not including,
/// `(index + 1) * cols`.
pub open spec fn row_of<T>(data: Seq<T>, cols: nat, index: int) -> Seq<T> {
    data.subrange(index * cols, (index + 1) * cols)
}

/// Column `index` of a row-major buffer of `rows` by `cols` values: the
/// values at flat indices `k * cols + index`, for `k` from 0 up to `rows`.
pub open spec fn col_of<T>(data: Seq<T>, rows: nat, cols: nat, index: int) -> Seq<T> {
    Seq::new(rows, |k: int| data[k * cols + index])
}

/// All rows of a buffer, first row first.
pub open spec fn rows_of<T>(data: Seq<T>, rows: nat, cols: nat) -> Seq<Seq<T>> {
    Seq::new(rows, |i: int| row_of(data, cols, i))
}

/// All columns of a buffer, first column first.
pub open spec fn cols_of<T>(data: Seq<T>, rows: nat, cols: nat) -> Seq<Seq<T>> {
    Seq::new(cols, |j: int| col_of(data, rows, cols, j))
}

/// Products with a common factor keep the order of the other factors:
/// for `a < b` and `c >= 0`, lane `a` of width `c` ends no later than the
/// last of `b` lanes does.
pub proof fn lemma_lane_bounds(a: int, b: int, c: int)
    requires
        0 <= a < b,
        0 <= c,
    ensures
        0 <= a * c,
        a * c + c == (a + 1) * c,
        (a + 1) * c <= b * c,
        (b - 1) * c + c == b * c,
        a * c <= (b - 1) * c,
{
    assert(0 <= a * c) by (nonlinear_arith)
        requires
            0 <= a,
            0 <= c,
    ;
    assert(a * c + c == (a + 1) * c) by (nonlinear_arith);
    assert((b - 1) * c + c == b * c) by (nonlinear_arith);
    assert((a + 1) * c <= b * c) by (nonlinear_arith)
        requires
            a + 1 <= b,
            0 <= c,
    ;
    assert(a * c <= (b - 1) * c) by (nonlinear_arith)
        requires
            a <= b - 1,
            0 <= c,
    ;
}

/// The entry at `(row, col)` is one value, however it is reached: as value
/// `col` of row `row`, as value `row` of column `col`, or at flat index
/// `row * cols + col`.
pub proof fn lemma_entry_of_row_and_col<T>(data: Seq<T>, rows: nat, cols: nat, row: int, col: int)
    requires
        data.len() == rows * cols,
        0 <= row < rows,
        0 <= col < cols,
    ensures
        0 <= row * cols + col < data.len(),
        row_of(data, cols, row)[col] == data[row * cols + col],
        col_of(data, rows, cols, col)[row] == data[row * cols + col],
{
    lemma_lane_bounds(row, rows as int, cols as int);
}

/// A cursor over evenly spaced values of a borrowed buffer. Walking one copy
/// of it leaves every other copy where it stood, so the same values can be
/// walked again.
pub struct ValueIter<'a, T> {
    buffer: &'a [T],
    start: usize,
    step: usize,
    index: usize,
    count: usize,
}

impl<'a, T> Clone for ValueIter<'a, T> {
    /// A second cursor at the same place: it has the same values to come.
    fn clone(&self) -> (copy: Self)
        ensures
            copy == *self,
    {
        ValueIter {
            buffer: self.buffer,
            start: self.start,
            step: self.step,
            index: self.index,
            count: self.count,
        }
    }
}

impl<'a, T> Copy for ValueIter<'a, T> {

}

/// A single row: contiguous values.
pub type RowIter<'a, T> = ValueIter<'a, T>;

/// A single column: values one row apart.
pub type ColIter<'a, T> = ValueIter<'a, T>;

impl<'a, T: Copy> ValueIter<'a, T> {
    /// A view of `count` values of `buffer`, `step` apart, the first at `start`.
    pub fn new(buffer: &'a [T], start: usize, step: usize, count: usize) -> (view: Self)
        requires
            count > 0 ==> start + (count - 1) * step < buffer@.len(),
        ensures
            view.wf(),
            view.remaining() == strided(buffer@, start as int, step as int, count as nat),
    {
        ValueIter { buffer, start, step, index: 0, count }
    }

    /// Row `index` of a row-major buffer of `rows` by `cols` values.
    pub fn row(buffer: &'a [T], rows: usize, cols: usize, index: usize) -> (view: Self)
        requires
            buffer@.len() == rows * cols,
            index < rows,
        ensures
            view.wf(),
            view.remaining() == row_of(buffer@, cols as nat, index as int),
            view.remaining().len() == cols,
    {
        let limit = buffer.len();
        proof {
            lemma_lane_bounds(index as int, rows as int, cols as int);
        }
        let view = ValueIter { buffer, start: index * cols, step: 1, index: 0, count: cols };
        proof {
            assert(view.remaining() =~= row_of(buffer@, cols as nat, index as int));
        }
        view
    }

    /// Column `index` of a row-major buffer of `rows` by `cols` values.
    pub fn col(buffer: &'a [T], rows: usize, cols: usize, index: usize) -> (view: Self)
        requires
            buffer@.len() == rows * cols,
            index < cols,
        ensures
            view.wf(),
            view.remaining() == col_of(buffer@, rows as nat, cols as nat, index as int),
            view.remaining().len() == rows,
    {
        let view = ValueIter { buffer, start: index, step: cols, index: 0, count: rows };
        proof {
            if rows > 0 {
                lemma_lane_bounds(0, rows as int, cols as int);
            }
            assert(view.remaining() =~= col_of(buffer@, rows as nat, cols as nat, index as int));
        }
        view
    }

    /// Every value of `buffer`, front to back.
    pub fn all(buffer: &'a [T]) -> (view: Self)
        ensures
            view.wf(),
            view.remaining() == buffer@,
    {
        let view = ValueIter { buffer, start: 0, step: 1, index: 0, count: buffer.len() };
        proof {
            assert(view.remaining() =~= buffer@);
        }
        view
    }

    /// How many values are still to come.
    pub fn len(&self) -> (length: usize)
        requires
            self.wf(),
        ensures
            length == self.remaining().len(),
    {
        self.count - self.index
    }

    /// The value `offset` places ahead, without moving the cursor.
    pub fn get(&self, offset: usize) -> (value: T)
        requires
            self.wf(),
            offset < self.remaining().len(),
        ensures
            value == self.remaining()[offset as int],
    {
        let limit = self.buffer.len();
        proof {
            lemma_lane_bounds(self.index + offset, self.count as int, self.step as int);
            assert(self.start + (self.index + offset) * self.step < limit);
        }
        self.buffer[self.start + (self.index + offset) * self.step]
    }

    /// The values still to come, collected without moving the cursor: calling
    /// this again gives the same values.
    pub fn to_vec(&self) -> (values: Vec<T>)
        requires
            self.wf(),
        ensures
            values@ == self.remaining(),
    {
        let mut values: Vec<T> = Vec::new();
        let length = self.len();
        let mut offset: usize = 0;
        while offset < length
            invariant
                self.wf(),
                length == self.remaining().len(),
                offset <= length,
                values@ == self.remaining().take(offset as int),
            decreases length - offset,
        {
            values.push(self.get(offset));
            offset = offset + 1;
            proof {
                assert(values@ == self.remaining().take(offset as int));
            }
        }
        proof {
            assert(self.remaining().take(length as int) == self.remaining());
        }
        values
    }
}

impl<'a, T: Copy> Producer for ValueIter<'a, T> {
    type Item = T;

    closed spec fn wf(&self) -> bool {
        &&& self.index <= self.count
        &&& self.count > 0 ==> self.start + (self.count - 1) * self.step < self.buffer@.len()
    }

    closed spec fn remaining(&self) -> Seq<T> {
        Seq::new(
            (self.count - self.index) as nat,
            |k: int| self.buffer@[self.start + (self.index + k) * self.step],
        )
    }

    fn next(&mut self) -> (item: Option<T>) {
        if self.index < self.count {
            let limit = self.buffer.len();
            proof {
                lemma_lane_bounds(self.index as int, self.count as int, self.step as int);
                assert(self.start + self.index * self.step < limit);
            }
            let value = self.buffer[self.start + self.index * self.step];
            self.index = self.index + 1;
            proof {
                assert(self.remaining() == old(self).remaining().skip(1));
            }
            Some(value)
        } else {
            None
        }
    }
}

/// Hands out the lanes of a buffer one after another: its rows, or its
/// columns. No lane is built before it is asked for.
pub struct LaneIter<'a, T> {
    buffer: &'a [T],
    lane: usize,
    lanes: usize,
    lane_stride: usize,
    step: usize,
    count: usize,
}

/// All rows, first row first.
pub type RowsIter<'a, T> = LaneIter<'a, T>;

/// All columns, first column first.
pub type ColsIter<'a, T> = LaneIter<'a, T>;

impl<'a, T: Copy> LaneIter<'a, T> {
    /// What holds of a producer that may be asked for lanes.
    pub closed spec fn wf(&self) -> bool {
        &&& self.lane <= self.lanes
        &&& self.lanes > 0 ==> (self.lanes - 1) * self.lane_stride <= usize::MAX
        &&& self.lanes > 0 && self.count > 0 ==> (self.lanes - 1) * self.lane_stride + (self.count
            - 1) * self.step < self.buffer@.len()
    }

    /// The lanes still to come, each as the values it holds.
    pub closed spec fn remaining(&self) -> Seq<Seq<T>> {
        Seq::new(
            (self.lanes - self.lane) as nat,
            |k: int|
                strided(
                    self.buffer@,
                    (self.lane + k) * self.lane_stride,
                    self.step as int,
                    self.count as nat,
                ),
        )
    }

    /// The rows of a row-major buffer of `rows` by `cols` values.
    pub fn rows(buffer: &'a [T], rows: usize, cols: usize) -> (views: Self)
        requires
            buffer@.len() == rows * cols,
        ensures
            views.wf(),
            views.remaining() == rows_of(buffer@, rows as nat, cols as nat),
    {
        let limit = buffer.len();
        let views = LaneIter { buffer, lane: 0, lanes: rows, lane_stride: cols, step: 1, count: cols };
        proof {
            if rows > 0 {
                lemma_lane_bounds(0, rows as int, cols as int);
            }
            assert forall|i: int| 0 <= i < rows implies #[trigger] views.remaining()[i] == row_of(
                buffer@,
                cols as nat,
                i,
            ) by {
                lemma_lane_bounds(i, rows as int, cols as int);
                assert(views.remaining()[i] =~= row_of(buffer@, cols as nat, i));
            }
            assert(views.remaining() =~= rows_of(buffer@, rows as nat, cols as nat));
        }
        views
    }

    /// The columns of a row-major buffer of `rows` by `cols` values.
    pub fn cols(buffer: &'a [T], rows: usize, cols: usize) -> (views: Self)
        requires
            buffer@.len() == rows * cols,
        ensures
            views.wf(),
            views.remaining() == cols_of(buffer@, rows as nat, cols as nat),
    {
        let views = LaneIter { buffer, lane: 0, lanes: cols, lane_stride: 1, step: cols, count: rows };
        proof {
            if rows > 0 {
                lemma_lane_bounds(0, rows as int, cols as int);
            }
            assert forall|j: int| 0 <= j < cols implies #[trigger] views.remaining()[j] == col_of(
                buffer@,
                rows as nat,
                cols as nat,
                j,
            ) by {
                assert(views.remaining()[j] =~= col_of(buffer@, rows as nat, cols as nat, j));
            }
            assert(views.remaining() =~= cols_of(buffer@, rows as nat, cols as nat));
        }
        views
    }

    /// How many lanes are still to come.
    pub fn len(&self) -> (length: usize)
        requires
            self.wf(),
        ensures
            length == self.remaining().len(),
    {
        self.lanes - self.lane
    }

    /// Hands out a view of the next lane, or `None` after the last one.
    pub fn next(&mut self) -> (item: Option<ValueIter<'a, T>>)
        requires
            old(self).wf(),
        ensures
            final(self).wf(),
            match item {
                Some(view) => {
                    &&& old(self).remaining().len() > 0
                    &&& view.wf()
                    &&& view.remaining() == old(self).remaining()[0]
                    &&& final(self).remaining() == old(self).remaining().skip(1)
                },
                None => {
                    &&& old(self).remaining().len() == 0
                    &&& final(self).remaining().len() == 0
                },
            },
    {
        if self.lane < self.lanes {
            proof {
                lemma_lane_bounds(self.lane as int, self.lanes as int, self.lane_stride as int);
            }
            let view = ValueIter::new(
                self.buffer,
                self.lane * self.lane_stride,
                self.step,
                self.count,
            );
            self.lane = self.lane + 1;
            proof {
                assert(self.remaining() =~= old(self).remaining().skip(1));
            }
            Some(view)
        } else {
            None
        }
    }
}

} // verus!
