//! The operations that vectors and matrices share, and the integer sequences
//! their contracts are stated over.
use vstd::prelude::*;

use crate::field::{abs_int, is_floor_sqrt, FieldBound};
use crate::shape::{Dimension, IncompatibleError, D1};

verus! {

/// The sum of a sequence (zero when it is empty).
pub open spec fn seq_sum(s: Seq<int>) -> int
    decreases s.len(),
{
    if s.len() == 0 {
        0
    } else {
        seq_sum(s.drop_last()) + s.last()
    }
}

/// The largest absolute value in a sequence (zero when it is empty).
pub open spec fn max_abs(s: Seq<int>) -> int
    decreases s.len(),
{
    if s.len() == 0 {
        0
    } else {
        let m = max_abs(s.drop_last());
        let a = abs_int(s.last());
        if a > m {
            a
        } else {
            m
        }
    }
}

/// Elementwise sum.
pub open spec fn add_seq(a: Seq<int>, b: Seq<int>) -> Seq<int> {
    Seq::new(a.len(), |i: int| a[i] + b[i])
}

/// Elementwise difference.
pub open spec fn sub_seq(a: Seq<int>, b: Seq<int>) -> Seq<int> {
    Seq::new(a.len(), |i: int| a[i] - b[i])
}

/// Elementwise product.
pub open spec fn mul_seq(a: Seq<int>, b: Seq<int>) -> Seq<int> {
    Seq::new(a.len(), |i: int| a[i] * b[i])
}

/// Elementwise quotient, rounded toward zero.
pub open spec fn div_seq(a: Seq<int>, b: Seq<int>) -> Seq<int> {
    Seq::new(a.len(), |i: int| crate::field::trunc_div(a[i], b[i]))
}

/// Every element multiplied by `t`.
pub open spec fn scale_seq(a: Seq<int>, t: int) -> Seq<int> {
    Seq::new(a.len(), |i: int| t * a[i])
}

/// Every element squared.
pub open spec fn squares(a: Seq<int>) -> Seq<int> {
    Seq::new(a.len(), |i: int| a[i] * a[i])
}

/// Every element's absolute value.
pub open spec fn abs_seq(a: Seq<int>) -> Seq<int> {
    Seq::new(a.len(), |i: int| abs_int(a[i]))
}

/// The dot product.
pub open spec fn dot_seq(a: Seq<int>, b: Seq<int>) -> int {
    seq_sum(mul_seq(a, b))
}

/// Every element can be held by `K`.
pub open spec fn all_fit<K: FieldBound>(s: Seq<int>) -> bool {
    forall|i: int| 0 <= i < s.len() ==> K::fits(#[trigger] s[i])
}

/// Every partial sum, from the first element on, can be held by `K`: the
/// running total of a left-to-right sum never overflows.
pub open spec fn sums_fit<K: FieldBound>(s: Seq<int>) -> bool {
    forall|k: int| 0 < k <= s.len() ==> K::fits(#[trigger] seq_sum(s.take(k)))
}

/// The dot product of `a` and `b` can be computed in `K`: each product and
/// each partial sum fits.
pub open spec fn dot_fits<K: FieldBound>(a: Seq<int>, b: Seq<int>) -> bool {
    all_fit::<K>(mul_seq(a, b)) && sums_fit::<K>(mul_seq(a, b))
}

/// The sum of squares can be computed in `K`.
pub open spec fn sqsum_fits<K: FieldBound>(a: Seq<int>) -> bool {
    all_fit::<K>(squares(a)) && sums_fit::<K>(squares(a))
}

/// The sum of absolute values can be computed in `K`.
pub open spec fn abs_sum_fits<K: FieldBound>(a: Seq<int>) -> bool {
    all_fit::<K>(abs_seq(a)) && sums_fit::<K>(abs_seq(a))
}

/// A value with a shape and a sequence of entries over the scalar `Field`,
/// with elementwise arithmetic and norms.
pub trait VectorSpace: Sized {
    type Field: FieldBound;

    /// The value is sound (a matrix is rectangular).
    spec fn well_formed(&self) -> bool;

    /// The shape.
    spec fn dims(&self) -> Dimension;

    /// The entries in storage order (a matrix lists its columns one after
    /// the other).
    spec fn entries(&self) -> Seq<int>;

    /// `sum` can run without overflow.
    spec fn sum_fits(&self) -> bool;

    /// `sqsum` and `norm` can run without overflow.
    spec fn sqsum_fits(&self) -> bool;

    /// `norm_1` can run without overflow.
    spec fn norm_1_fits(&self) -> bool;

    fn shape(&self) -> (r: Dimension)
        requires
            self.well_formed(),
        ensures
            r == self.dims(),
    ;

    /// The number of entries.
    fn size(&self) -> (r: usize)
        requires
            self.well_formed(),
            self.entries().len() <= usize::MAX,
        ensures
            r == self.entries().len(),
    ;

    /// Adds `v` elementwise; refused, with nothing changed, when the shapes
    /// differ.
    fn add(&mut self, v: &Self) -> (r: Result<(), IncompatibleError>)
        requires
            old(self).well_formed(),
            v.well_formed(),
            old(self).dims() == v.dims() ==> all_fit::<Self::Field>(
                add_seq(old(self).entries(), v.entries()),
            ),
        ensures
            final(self).well_formed(),
            r is Ok <==> old(self).dims() == v.dims(),
            r is Ok ==> final(self).dims() == old(self).dims() && final(self).entries() == add_seq(
                old(self).entries(),
                v.entries(),
            ),
            r is Err ==> *final(self) == *old(self) && r == Err::<(), IncompatibleError>(
                IncompatibleError { expected: old(self).dims(), found: v.dims() },
            ),
    ;

    /// Subtracts `v` elementwise; refused, with nothing changed, when the
    /// shapes differ.
    fn sub(&mut self, v: &Self) -> (r: Result<(), IncompatibleError>)
        requires
            old(self).well_formed(),
            v.well_formed(),
            old(self).dims() == v.dims() ==> all_fit::<Self::Field>(
                sub_seq(old(self).entries(), v.entries()),
            ),
        ensures
            final(self).well_formed(),
            r is Ok <==> old(self).dims() == v.dims(),
            r is Ok ==> final(self).dims() == old(self).dims() && final(self).entries() == sub_seq(
                old(self).entries(),
                v.entries(),
            ),
            r is Err ==> *final(self) == *old(self) && r == Err::<(), IncompatibleError>(
                IncompatibleError { expected: old(self).dims(), found: v.dims() },
            ),
    ;

    /// Multiplies every entry by `a`.
    fn scl(&mut self, a: Self::Field)
        requires
            old(self).well_formed(),
            all_fit::<Self::Field>(scale_seq(old(self).entries(), a.val())),
        ensures
            final(self).well_formed(),
            final(self).dims() == old(self).dims(),
            final(self).entries() == scale_seq(old(self).entries(), a.val()),
    ;

    /// The sum of the entries.
    fn sum(&self) -> (r: Self::Field)
        requires
            self.well_formed(),
            self.sum_fits(),
        ensures
            r.val() == seq_sum(self.entries()),
    ;

    /// The sum of the squared entries.
    fn sqsum(&self) -> (r: Self::Field)
        requires
            self.well_formed(),
            self.sqsum_fits(),
        ensures
            r.val() == seq_sum(squares(self.entries())),
    ;

    /// The largest absolute value of an entry.
    fn norm_inf(&self) -> (r: Self::Field)
        requires
            self.well_formed(),
            all_fit::<Self::Field>(abs_seq(self.entries())),
        ensures
            r.val() == max_abs(self.entries()),
    ;

    /// The sum of the absolute values of the entries.
    fn norm_1(&self) -> (r: Self::Field)
        requires
            self.well_formed(),
            self.norm_1_fits(),
        ensures
            r.val() == seq_sum(abs_seq(self.entries())),
    ;

    /// The Euclidean norm: the truncated square root of `sqsum`.
    fn norm(&self) -> (r: Self::Field)
        requires
            self.well_formed(),
            self.sqsum_fits(),
        ensures
            is_floor_sqrt(r.val(), seq_sum(squares(self.entries()))),
    ;

    /// The common shape, or the two shapes when they differ.
    fn eq_shape_compatible(&self, v: &Self) -> (r: Result<Dimension, IncompatibleError>)
        requires
            self.well_formed(),
            v.well_formed(),
        ensures
            r == (if self.dims() == v.dims() {
                Ok::<Dimension, IncompatibleError>(self.dims())
            } else {
                Err(IncompatibleError { expected: self.dims(), found: v.dims() })
            }),
    {
        let expected = self.shape();
        let found = v.shape();
        if expected == found {
            Ok(expected)
        } else {
            Err(IncompatibleError::new(expected, found))
        }
    }

    /// The common number of entries, or the two sizes (as vector shapes)
    /// when they differ.
    fn eq_size_compatible(&self, v: &Self) -> (r: Result<usize, IncompatibleError>)
        requires
            self.well_formed(),
            v.well_formed(),
            self.entries().len() <= usize::MAX,
            v.entries().len() <= usize::MAX,
        ensures
            r == (if self.entries().len() == v.entries().len() {
                Ok::<usize, IncompatibleError>(self.entries().len() as usize)
            } else {
                Err(
                    IncompatibleError {
                        expected: Dimension::D1(D1 { length: self.entries().len() as usize }),
                        found: Dimension::D1(D1 { length: v.entries().len() as usize }),
                    },
                )
            }),
    {
        let expected = self.size();
        let found = v.size();
        if expected == found {
            Ok(expected)
        } else {
            Err(
                IncompatibleError::new(
                    Dimension::D1(D1 { length: expected }),
                    Dimension::D1(D1 { length: found }),
                ),
            )
        }
    }
}

} // verus!
