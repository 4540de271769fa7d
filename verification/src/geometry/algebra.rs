//! Arithmetic of matrix entries and the two combinators built on it: a sum
//! taken in traversal order and a lazy element-wise product.

use vstd::prelude::*;

verus! {

/// The arithmetic a matrix entry offers: a zero, an addition and a
/// multiplication. Nothing is assumed of them (addition need not be
/// associative), so every sum below fixes its order.
pub trait Element: Copy {
    /// The additive identity sums start from.
    spec fn zero_value() -> Self;

    /// The value of `self + other`.
    spec fn sum(self, other: Self) -> Self;

    /// The value of `self * other`.
    spec fn product(self, other: Self) -> Self;

    /// The additive identity.
    fn zero() -> (value: Self)
        ensures
            value == Self::zero_value(),
    ;

    /// `self + other`.
    fn plus(self, other: Self) -> (value: Self)
        ensures
            value == self.sum(other),
    ;

    /// `self * other`.
    fn times(self, other: Self) -> (value: Self)
        ensures
            value == self.product(other),
    ;
}

/// Two's-complement integers, with arithmetic that wraps around.
impl Element for i32 {
    open spec fn zero_value() -> i32 {
        0i32
    }

    open spec fn sum(self, other: i32) -> i32 {
        self.wrapping_add(other)
    }

    open spec fn product(self, other: i32) -> i32 {
        self.wrapping_mul(other)
    }

    fn zero() -> (value: i32) {
        0i32
    }

    fn plus(self, other: i32) -> (value: i32) {
        self.wrapping_add(other)
    }

    fn times(self, other: i32) -> (value: i32) {
        self.wrapping_mul(other)
    }
}

/// A source of values handed out one at a time, front first.
pub trait Producer {
    type Item;

    /// What holds of a source that may be asked for values.
    spec fn wf(&self) -> bool;

    /// The values still to come, in the order they will be handed out.
    spec fn remaining(&self) -> Seq<Self::Item>;

    /// Hands out the next value, or `None` once the source is exhausted.
    fn next(&mut self) -> (item: Option<Self::Item>)
        requires
            old(self).wf(),
        ensures
            final(self).wf(),
            match item {
                Some(value) => {
                    &&& old(self).remaining().len() > 0
                    &&& value == old(self).remaining()[0]
                    &&& final(self).remaining() == old(self).remaining().skip(1)
                },
                None => {
                    &&& old(self).remaining().len() == 0
                    &&& final(self).remaining().len() == 0
                },
            },
    ;
}

/// The sum of `values` taken front to back, starting from zero:
/// `((0 + v0) + v1) + ...`.
pub open spec fn sum_of<T: Element>(values: Seq<T>) -> T
    decreases values.len(),
{
    if values.len() == 0 {
        T::zero_value()
    } else {
        sum_of(values.drop_last()).sum(values.last())
    }
}

/// A value appended to a sequence is the last to be added to its sum.
pub proof fn lemma_sum_of_push<T: Element>(values: Seq<T>, last: T)
    ensures
        sum_of(values.push(last)) == sum_of(values).sum(last),
{
    assert(values.push(last).drop_last() == values);
}

/// The position-wise products of two sequences, as many as the shorter one
/// has values.
pub open spec fn products<T: Element>(left: Seq<T>, right: Seq<T>) -> Seq<T> {
    Seq::new(
        if left.len() <= right.len() { left.len() } else { right.len() },
        |i: int| left[i].product(right[i]),
    )
}

/// Sums everything `data` hands out, in the order it comes, from zero.
pub fn sum_reduce<I: Producer>(data: I) -> (result: I::Item)
    where I::Item: Element
    requires
        data.wf(),
    ensures
        result == sum_of(data.remaining()),
{
    let ghost all = data.remaining();
    let ghost mut taken: int = 0;
    let mut data = data;
    let mut result = I::Item::zero();
    loop
        invariant_except_break
            data.wf(),
            0 <= taken <= all.len(),
            data.remaining() == all.skip(taken),
            result == sum_of(all.take(taken)),
        ensures
            result == sum_of(all),
        decreases data.remaining().len(),
    {
        match data.next() {
            Some(value) => {
                proof {
                    lemma_sum_of_push(all.take(taken), value);
                    assert(all.take(taken).push(value) == all.take(taken + 1));
                    assert(all.skip(taken).skip(1) == all.skip(taken + 1));
                    taken = taken + 1;
                }
                result = result.plus(value);
            },
            None => {
                proof {
                    assert(all.take(taken) == all);
                }
                break ;
            },
        }
    }
    result
}

/// The lazy element-wise product of two sources. It ends as soon as either
/// source does.
pub struct Mul<L, R> {
    left: L,
    right: R,
}

impl<L: Producer, R: Producer<Item = L::Item>> Producer for Mul<L, R> where L::Item: Element {
    type Item = L::Item;

    closed spec fn wf(&self) -> bool {
        self.left.wf() && self.right.wf()
    }

    closed spec fn remaining(&self) -> Seq<L::Item> {
        products(self.left.remaining(), self.right.remaining())
    }

    fn next(&mut self) -> (item: Option<L::Item>) {
        let ghost left = self.left.remaining();
        let ghost right = self.right.remaining();
        let l = self.left.next();
        let r = self.right.next();
        match (l, r) {
            (Some(l), Some(r)) => {
                proof {
                    assert(products(left.skip(1), right.skip(1)) == products(left, right).skip(1));
                }
                Some(l.times(r))
            },
            _ => None,
        }
    }
}

/// Pairs two sources position by position and multiplies each pair on demand.
pub fn mul<L: Producer, R: Producer<Item = L::Item>>(left: L, right: R) -> (paired: Mul<L, R>)
    where L::Item: Element
    requires
        left.wf(),
        right.wf(),
    ensures
        paired.wf(),
        paired.remaining() == products(left.remaining(), right.remaining()),
{
    Mul { left, right }
}

} // verus!
