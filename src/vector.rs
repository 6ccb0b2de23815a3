//! Dense vectors over a scalar field.
use vstd::prelude::*;
use vstd::std_specs::iter::IteratorSpec;

use crate::field::{abs_int, floor_sqrt, is_floor_sqrt, lemma_floor_sqrt, trunc_div, FieldBound};
use crate::shape::{AlgebraError, Dimension, IncompatibleError, D1};
use crate::space::{
    abs_seq, abs_sum_fits, add_seq, all_fit, dot_fits, dot_seq, max_abs, mul_seq, scale_seq,
    seq_sum, sqsum_fits, squares, sub_seq, sums_fit, VectorSpace,
};

verus! {

/// A fixed-length sequence of scalars.
#[derive(Debug, Clone, PartialEq)]
pub struct Vector<K: FieldBound> {
    fields: Vec<K>,
}

/// The integers that a sequence of scalars stands for.
pub open spec fn vals<K: FieldBound>(s: Seq<K>) -> Seq<int> {
    s.map_values(|x: K| x.val())
}

impl<K: FieldBound> View for Vector<K> {
    type V = Seq<int>;

    closed spec fn view(&self) -> Seq<int> {
        vals(self.fields@)
    }
}

/// A vector's length is a `usize`.
pub proof fn lemma_len_bound<K: FieldBound>(v: &Vector<K>)
    ensures
        v@.len() <= usize::MAX,
{
    assert(v@.len() == v.fields@.len());
    assert(v.fields@.len() == v.fields.len());
}

impl<K: FieldBound> From<Vec<K>> for Vector<K> {
    fn from(content: Vec<K>) -> (r: Vector<K>)
        ensures
            r@ == vals(content@),
    {
        Vector { fields: content }
    }
}

impl<K: FieldBound> vstd::std_specs::convert::FromSpecImpl<Vec<K>> for Vector<K> {
    open spec fn obeys_from_spec() -> bool {
        true
    }

    closed spec fn from_spec(content: Vec<K>) -> Vector<K> {
        Vector { fields: content }
    }
}

/// Adding the next element to a left-to-right sum.
pub proof fn lemma_sum_step(s: Seq<int>, i: int)
    requires
        0 <= i < s.len(),
    ensures
        seq_sum(s.take(i + 1)) == seq_sum(s.take(i)) + s[i],
{
    assert(s.take(i + 1).drop_last() =~= s.take(i));
}

/// Taking the next element into the largest absolute value so far.
proof fn lemma_max_abs_step(s: Seq<int>, i: int)
    requires
        0 <= i < s.len(),
    ensures
        max_abs(s.take(i + 1)) == (if abs_int(s[i]) > max_abs(s.take(i)) {
            abs_int(s[i])
        } else {
            max_abs(s.take(i))
        }),
{
    assert(s.take(i + 1).drop_last() =~= s.take(i));
}

impl<K: FieldBound> Vector<K> {
    /// The vector holding `content`.
    pub fn from_vec(content: Vec<K>) -> (r: Self)
        ensures
            r@ == vals(content@),
    {
        Vector { fields: content }
    }

    /// The vector holding a copy of `content`.
    pub fn from_slice(content: &[K]) -> (r: Self)
        ensures
            r@ == vals(content@),
    {
        let mut fields: Vec<K> = Vec::new();
        let mut i: usize = 0;
        while i < content.len()
            invariant
                i <= content@.len(),
                fields@ == content@.take(i as int),
            decreases content@.len() - i,
        {
            fields.push(content[i]);
            i += 1;
            assert(fields@ =~= content@.take(i as int));
        }
        assert(content@.take(i as int) =~= content@);
        Vector { fields }
    }

    /// `n` copies of `value`.
    pub fn filled(value: K, n: usize) -> (r: Self)
        ensures
            r@ == Seq::new(n as nat, |i: int| value.val()),
    {
        let mut fields: Vec<K> = Vec::new();
        let mut i: usize = 0;
        while i < n
            invariant
                i <= n,
                fields@.len() == i,
                forall|k: int| 0 <= k < i ==> fields@[k] == value,
            decreases n - i,
        {
            fields.push(value);
            i += 1;
        }
        let r = Vector { fields };
        assert(r@ =~= Seq::new(n as nat, |i: int| value.val()));
        r
    }

    /// A copy of this vector.
    pub fn duplicate(&self) -> (r: Self)
        ensures
            r@ == self@,
    {
        Vector::from_slice(self.fields.as_slice())
    }

    /// The number of elements.
    pub fn len(&self) -> (r: usize)
        ensures
            r == self@.len(),
    {
        self.fields.len()
    }

    /// The element at `i`.
    pub fn get(&self, i: usize) -> (r: K)
        requires
            i < self@.len(),
        ensures
            r.val() == self@[i as int],
    {
        self.fields[i]
    }

    /// Replaces the element at `i`.
    pub fn set(&mut self, i: usize, x: K)
        requires
            i < old(self)@.len(),
        ensures
            final(self)@ == old(self)@.update(i as int, x.val()),
    {
        self.fields[i] = x;
        assert(self@ =~= old(self)@.update(i as int, x.val()));
    }

    /// The elements, in order.
    pub fn as_slice(&self) -> (r: &[K])
        ensures
            vals(r@) == self@,
    {
        self.fields.as_slice()
    }

    /// Iterates over the elements in order.
    pub fn iter(&self) -> (r: std::slice::Iter<'_, K>)
        ensures
            vals(r.remaining().map_values(|x: &K| *x)) == self@,
    {
        let r = self.fields.as_slice().iter();
        assert(vals(r.remaining().map_values(|x: &K| *x)) =~= self@);
        r
    }

    /// Adds `k` at the end.
    pub fn append(&mut self, k: K)
        ensures
            final(self)@ == old(self)@.push(k.val()),
    {
        self.fields.push(k);
        assert(self@ =~= old(self)@.push(k.val()));
    }

    /// The dot product.
    pub fn dot(&self, v: &Vector<K>) -> (r: K)
        requires
            self@.len() == v@.len(),
            dot_fits::<K>(self@, v@),
        ensures
            r.val() == dot_seq(self@, v@),
    {
        let n = self.fields.len();
        let mut acc = K::zero();
        let mut i: usize = 0;
        while i < n
            invariant
                n == self@.len() == v@.len(),
                i <= n,
                dot_fits::<K>(self@, v@),
                acc.val() == seq_sum(mul_seq(self@, v@).take(i as int)),
            decreases n - i,
        {
            proof {
                lemma_sum_step(mul_seq(self@, v@), i as int);
                assert(K::fits(mul_seq(self@, v@)[i as int]));
                assert(K::fits(seq_sum(mul_seq(self@, v@).take(i + 1))));
            }
            let p = self.fields[i].times(&v.fields[i]);
            acc = acc.plus(&p);
            i += 1;
        }
        assert(mul_seq(self@, v@).take(n as int) =~= mul_seq(self@, v@));
        acc
    }

    /// Multiplies elementwise by `v`; refused, with nothing changed, when the
    /// lengths differ.
    pub fn mul_elementwise(&mut self, v: &Vector<K>) -> (r: Result<(), IncompatibleError>)
        requires
            old(self)@.len() == v@.len() ==> all_fit::<K>(mul_seq(old(self)@, v@)),
        ensures
            r is Ok <==> old(self)@.len() == v@.len(),
            r is Ok ==> final(self)@ == mul_seq(old(self)@, v@),
            r is Err ==> *final(self) == *old(self) && r == Err::<(), IncompatibleError>(
                IncompatibleError {
                    expected: Dimension::D1(D1 { length: old(self)@.len() as usize }),
                    found: Dimension::D1(D1 { length: v@.len() as usize }),
                },
            ),
    {
        let n = self.fields.len();
        if n != v.fields.len() {
            return Err(IncompatibleError::new(self.shape(), v.shape()));
        }
        let mut i: usize = 0;
        while i < n
            invariant
                n == old(self)@.len() == v@.len() == self@.len(),
                i <= n,
                all_fit::<K>(mul_seq(old(self)@, v@)),
                forall|k: int| 0 <= k < i ==> #[trigger] self.fields@[k].val() == old(self).fields@[k].val() * v.fields@[k].val(),
                forall|k: int| i <= k < n ==> self.fields@[k] == old(self).fields@[k],
            decreases n - i,
        {
            assert(K::fits(mul_seq(old(self)@, v@)[i as int]));
            let x = self.fields[i].times(&v.fields[i]);
            self.fields[i] = x;
            i += 1;
        }
        assert(self@ =~= mul_seq(old(self)@, v@));
        Ok(())
    }

    /// Divides elementwise by `v`, rounding toward zero; refused, with
    /// nothing changed, when the lengths differ.
    pub fn div_elementwise(&mut self, v: &Vector<K>) -> (r: Result<(), IncompatibleError>)
        requires
            old(self)@.len() == v@.len() ==> forall|k: int|
                0 <= k < v@.len() ==> #[trigger] v@[k] != 0 && K::fits(
                    crate::field::trunc_div(old(self)@[k], v@[k]),
                ),
        ensures
            r is Ok <==> old(self)@.len() == v@.len(),
            r is Ok ==> final(self)@ == crate::space::div_seq(old(self)@, v@),
            r is Err ==> *final(self) == *old(self) && r == Err::<(), IncompatibleError>(
                IncompatibleError {
                    expected: Dimension::D1(D1 { length: old(self)@.len() as usize }),
                    found: Dimension::D1(D1 { length: v@.len() as usize }),
                },
            ),
    {
        let n = self.fields.len();
        if n != v.fields.len() {
            return Err(IncompatibleError::new(self.shape(), v.shape()));
        }
        let mut i: usize = 0;
        while i < n
            invariant
                n == old(self)@.len() == v@.len() == self@.len(),
                i <= n,
                forall|k: int|
                    0 <= k < n ==> #[trigger] v@[k] != 0 && K::fits(
                        crate::field::trunc_div(old(self)@[k], v@[k]),
                    ),
                forall|k: int|
                    0 <= k < i ==> #[trigger] self.fields@[k].val() == crate::field::trunc_div(
                        old(self).fields@[k].val(),
                        v.fields@[k].val(),
                    ),
                forall|k: int| i <= k < n ==> self.fields@[k] == old(self).fields@[k],
            decreases n - i,
        {
            assert(v@[i as int] != 0);
            assert(old(self)@[i as int] == self.fields@[i as int].val());
            let x = self.fields[i].quot(&v.fields[i]);
            self.fields[i] = x;
            i += 1;
        }
        assert(self@ =~= crate::space::div_seq(old(self)@, v@));
        Ok(())
    }

    /// Divides every element by `a`, rounding toward zero.
    pub fn div_scalar(&mut self, a: K)
        requires
            a.val() != 0,
            forall|k: int|
                0 <= k < old(self)@.len() ==> K::fits(
                    #[trigger] crate::field::trunc_div(old(self)@[k], a.val()),
                ),
        ensures
            final(self)@ == Seq::new(
                old(self)@.len(),
                |k: int| crate::field::trunc_div(old(self)@[k], a.val()),
            ),
    {
        let n = self.fields.len();
        let mut i: usize = 0;
        while i < n
            invariant
                n == old(self)@.len() == self@.len(),
                i <= n,
                a.val() != 0,
                forall|k: int|
                    0 <= k < n ==> K::fits(
                        #[trigger] crate::field::trunc_div(old(self)@[k], a.val()),
                    ),
                forall|k: int|
                    0 <= k < i ==> #[trigger] self.fields@[k].val() == crate::field::trunc_div(
                        old(self).fields@[k].val(),
                        a.val(),
                    ),
                forall|k: int| i <= k < n ==> self.fields@[k] == old(self).fields@[k],
            decreases n - i,
        {
            assert(old(self)@[i as int] == self.fields@[i as int].val());
            let x = self.fields[i].quot(&a);
            self.fields[i] = x;
            i += 1;
        }
        assert(self@ =~= Seq::new(
            old(self)@.len(),
            |k: int| crate::field::trunc_div(old(self)@[k], a.val()),
        ));
    }

    /// The vector with every element negated.
    pub fn neg(&self) -> (r: Vector<K>)
        requires
            forall|k: int| 0 <= k < self@.len() ==> K::fits(-#[trigger] self@[k]),
        ensures
            r@ == Seq::new(self@.len(), |k: int| -self@[k]),
    {
        let n = self.fields.len();
        let mut fields: Vec<K> = Vec::new();
        let mut i: usize = 0;
        while i < n
            invariant
                n == self@.len(),
                i <= n,
                forall|k: int| 0 <= k < n ==> K::fits(-#[trigger] self@[k]),
                fields@.len() == i,
                forall|k: int| 0 <= k < i ==> #[trigger] fields@[k].val() == -self@[k],
            decreases n - i,
        {
            assert(K::fits(-self@[i as int]));
            fields.push(self.fields[i].negate());
            i += 1;
        }
        let r = Vector { fields };
        assert(r@ =~= Seq::new(self@.len(), |k: int| -self@[k]));
        r
    }
}

impl<K: FieldBound> VectorSpace for Vector<K> {
    type Field = K;

    open spec fn well_formed(&self) -> bool {
        true
    }

    open spec fn dims(&self) -> Dimension {
        Dimension::D1(D1 { length: self@.len() as usize })
    }

    open spec fn entries(&self) -> Seq<int> {
        self@
    }

    open spec fn sum_fits(&self) -> bool {
        sums_fit::<K>(self@)
    }

    open spec fn sqsum_fits(&self) -> bool {
        sqsum_fits::<K>(self@)
    }

    open spec fn norm_1_fits(&self) -> bool {
        abs_sum_fits::<K>(self@)
    }

    fn shape(&self) -> (r: Dimension) {
        Dimension::D1(D1 { length: self.fields.len() })
    }

    fn size(&self) -> (r: usize) {
        self.fields.len()
    }

    fn add(&mut self, v: &Self) -> (r: Result<(), IncompatibleError>) {
        let n = self.fields.len();
        if n != v.fields.len() {
            return Err(IncompatibleError::new(self.shape(), v.shape()));
        }
        let mut i: usize = 0;
        while i < n
            invariant
                n == old(self)@.len() == v@.len() == self@.len(),
                i <= n,
                all_fit::<K>(add_seq(old(self)@, v@)),
                forall|k: int| 0 <= k < i ==> #[trigger] self.fields@[k].val() == old(self).fields@[k].val() + v.fields@[k].val(),
                forall|k: int| i <= k < n ==> self.fields@[k] == old(self).fields@[k],
            decreases n - i,
        {
            assert(K::fits(add_seq(old(self)@, v@)[i as int]));
            let x = self.fields[i].plus(&v.fields[i]);
            self.fields[i] = x;
            i += 1;
        }
        assert(self@ =~= add_seq(old(self)@, v@));
        Ok(())
    }

    fn sub(&mut self, v: &Self) -> (r: Result<(), IncompatibleError>) {
        let n = self.fields.len();
        if n != v.fields.len() {
            return Err(IncompatibleError::new(self.shape(), v.shape()));
        }
        let mut i: usize = 0;
        while i < n
            invariant
                n == old(self)@.len() == v@.len() == self@.len(),
                i <= n,
                all_fit::<K>(sub_seq(old(self)@, v@)),
                forall|k: int| 0 <= k < i ==> #[trigger] self.fields@[k].val() == old(self).fields@[k].val() - v.fields@[k].val(),
                forall|k: int| i <= k < n ==> self.fields@[k] == old(self).fields@[k],
            decreases n - i,
        {
            assert(K::fits(sub_seq(old(self)@, v@)[i as int]));
            let x = self.fields[i].minus(&v.fields[i]);
            self.fields[i] = x;
            i += 1;
        }
        assert(self@ =~= sub_seq(old(self)@, v@));
        Ok(())
    }

    fn scl(&mut self, a: K) {
        let n = self.fields.len();
        let mut i: usize = 0;
        while i < n
            invariant
                n == old(self)@.len() == self@.len(),
                i <= n,
                all_fit::<K>(scale_seq(old(self)@, a.val())),
                forall|k: int| 0 <= k < i ==> #[trigger] self.fields@[k].val() == a.val() * old(self).fields@[k].val(),
                forall|k: int| i <= k < n ==> self.fields@[k] == old(self).fields@[k],
            decreases n - i,
        {
            assert(K::fits(scale_seq(old(self)@, a.val())[i as int]));
            let x = a.times(&self.fields[i]);
            self.fields[i] = x;
            i += 1;
        }
        assert(self@ =~= scale_seq(old(self)@, a.val()));
    }

    fn sum(&self) -> (r: K) {
        let n = self.fields.len();
        let mut acc = K::zero();
        let mut i: usize = 0;
        while i < n
            invariant
                n == self@.len(),
                i <= n,
                sums_fit::<K>(self@),
                acc.val() == seq_sum(self@.take(i as int)),
            decreases n - i,
        {
            proof {
                lemma_sum_step(self@, i as int);
                assert(K::fits(seq_sum(self@.take(i + 1))));
            }
            acc = acc.plus(&self.fields[i]);
            i += 1;
        }
        assert(self@.take(n as int) =~= self@);
        acc
    }

    fn sqsum(&self) -> (r: K) {
        let n = self.fields.len();
        let mut acc = K::zero();
        let mut i: usize = 0;
        while i < n
            invariant
                n == self@.len(),
                i <= n,
                sqsum_fits::<K>(self@),
                acc.val() == seq_sum(squares(self@).take(i as int)),
            decreases n - i,
        {
            proof {
                lemma_sum_step(squares(self@), i as int);
                assert(K::fits(squares(self@)[i as int]));
                assert(K::fits(seq_sum(squares(self@).take(i + 1))));
            }
            let sq = self.fields[i].times(&self.fields[i]);
            acc = acc.plus(&sq);
            i += 1;
        }
        assert(squares(self@).take(n as int) =~= squares(self@));
        acc
    }

    fn norm_inf(&self) -> (r: K) {
        let n = self.fields.len();
        let mut max = K::zero();
        let mut i: usize = 0;
        while i < n
            invariant
                n == self@.len(),
                i <= n,
                all_fit::<K>(abs_seq(self@)),
                max.val() == max_abs(self@.take(i as int)),
            decreases n - i,
        {
            proof {
                lemma_max_abs_step(self@, i as int);
                assert(K::fits(abs_seq(self@)[i as int]));
            }
            let a = self.fields[i].abs();
            if max.less_than(&a) {
                max = a;
            }
            i += 1;
        }
        assert(self@.take(n as int) =~= self@);
        max
    }

    fn norm_1(&self) -> (r: K) {
        let n = self.fields.len();
        let mut acc = K::zero();
        let mut i: usize = 0;
        while i < n
            invariant
                n == self@.len(),
                i <= n,
                abs_sum_fits::<K>(self@),
                acc.val() == seq_sum(abs_seq(self@).take(i as int)),
            decreases n - i,
        {
            proof {
                lemma_sum_step(abs_seq(self@), i as int);
                assert(K::fits(abs_seq(self@)[i as int]));
                assert(K::fits(seq_sum(abs_seq(self@).take(i + 1))));
            }
            let a = self.fields[i].abs();
            acc = acc.plus(&a);
            i += 1;
        }
        assert(abs_seq(self@).take(n as int) =~= abs_seq(self@));
        acc
    }

    fn norm(&self) -> (r: K) {
        let s = self.sqsum();
        proof {
            lemma_squares_sum_nonneg(self@);
        }
        s.sqrt()
    }
}

/// A sum of squares is not negative.
pub proof fn lemma_squares_sum_nonneg(s: Seq<int>)
    ensures
        seq_sum(squares(s)) >= 0,
    decreases s.len(),
{
    if s.len() > 0 {
        lemma_squares_sum_nonneg(s.drop_last());
        assert(squares(s).drop_last() =~= squares(s.drop_last()));
        assert(s.last() * s.last() >= 0) by (nonlinear_arith);
    }
}


/// The linear combination `Σ cs[i] * us[i]` of equal-length sequences.
pub open spec fn lin_comb(us: Seq<Seq<int>>, cs: Seq<int>) -> Seq<int>
    decreases us.len(),
{
    if us.len() <= 1 {
        scale_seq(us[0], cs[0])
    } else {
        add_seq(lin_comb(us.drop_last(), cs.drop_last()), scale_seq(us.last(), cs.last()))
    }
}

/// The linear combination can be computed in `K`: each scaled vector and
/// each running total fits.
pub open spec fn lin_comb_fits<K: FieldBound>(us: Seq<Seq<int>>, cs: Seq<int>) -> bool {
    &&& forall|i: int| 0 <= i < us.len() ==> all_fit::<K>(#[trigger] scale_seq(us[i], cs[i]))
    &&& forall|m: int|
        1 <= m <= us.len() ==> all_fit::<K>(#[trigger] lin_comb(us.take(m), cs.take(m)))
}

/// The views of a sequence of vectors.
pub open spec fn views<K: FieldBound>(us: Seq<Vector<K>>) -> Seq<Seq<int>> {
    us.map_values(|v: Vector<K>| v@)
}

/// The linear interpolation `u + t * (v - u)`.
pub open spec fn lerp_seq(u: Seq<int>, v: Seq<int>, t: int) -> Seq<int> {
    add_seq(u, scale_seq(sub_seq(v, u), t))
}

/// The cross product of two 3-element sequences.
pub open spec fn cross_seq(a: Seq<int>, b: Seq<int>) -> Seq<int> {
    seq![a[1] * b[2] - a[2] * b[1], a[2] * b[0] - a[0] * b[2], a[0] * b[1] - a[1] * b[0]]
}

/// The cross product can be computed in `K`.
pub open spec fn cross_fits<K: FieldBound>(a: Seq<int>, b: Seq<int>) -> bool {
    &&& K::fits(a[1] * b[2]) && K::fits(a[2] * b[1]) && K::fits(a[1] * b[2] - a[2] * b[1])
    &&& K::fits(a[2] * b[0]) && K::fits(a[0] * b[2]) && K::fits(a[2] * b[0] - a[0] * b[2])
    &&& K::fits(a[0] * b[1]) && K::fits(a[1] * b[0]) && K::fits(a[0] * b[1] - a[1] * b[0])
}

/// `Σ coefs[i] * u[i]` over a non-empty list of equal-length vectors.
pub fn linear_combination<K: FieldBound>(u: &[Vector<K>], coefs: &[K]) -> (r: Vector<K>)
    requires
        u@.len() > 0,
        u@.len() == coefs@.len(),
        forall|i: int| 0 <= i < u@.len() ==> (#[trigger] u@[i])@.len() == u@[0]@.len(),
        lin_comb_fits::<K>(views(u@), vals(coefs@)),
    ensures
        r@ == lin_comb(views(u@), vals(coefs@)),
{
    let ghost us = views(u@);
    let ghost cs = vals(coefs@);
    let mut vsum = u[0].duplicate();
    proof {
        assert(all_fit::<K>(scale_seq(us[0], cs[0])));
    }
    vsum.scl(coefs[0]);
    proof {
        assert(us.take(1).len() == 1);
        assert(lin_comb(us.take(1), cs.take(1)) == scale_seq(us[0], cs[0]));
    }
    let mut i: usize = 1;
    while i < u.len()
        invariant
            1 <= i <= u@.len() == coefs@.len() == us.len() == cs.len(),
            us == views(u@),
            cs == vals(coefs@),
            forall|k: int| 0 <= k < u@.len() ==> (#[trigger] u@[k])@.len() == u@[0]@.len(),
            lin_comb_fits::<K>(us, cs),
            vsum@ == lin_comb(us.take(i as int), cs.take(i as int)),
            vsum@.len() == u@[0]@.len(),
        decreases u@.len() - i,
    {
        let mut v = u[i].duplicate();
        proof {
            assert(all_fit::<K>(scale_seq(us[i as int], cs[i as int])));
        }
        v.scl(coefs[i]);
        proof {
            let a = us.take(i + 1);
            let c = cs.take(i + 1);
            assert(a.drop_last() =~= us.take(i as int));
            assert(c.drop_last() =~= cs.take(i as int));
            assert(lin_comb(a, c) == add_seq(vsum@, v@));
            assert(all_fit::<K>(lin_comb(us.take(i + 1), cs.take(i + 1))));
        }
        let res = vsum.add(&v);
        assert(res is Ok);
        i += 1;
    }
    assert(us.take(u@.len() as int) =~= us);
    assert(cs.take(u@.len() as int) =~= cs);
    vsum
}

/// The linear interpolation `u + t * (v - u)`; refused when the lengths
/// differ.
pub fn lerp<K: FieldBound>(u: &Vector<K>, v: &Vector<K>, t: K) -> (r: Result<
    Vector<K>,
    IncompatibleError,
>)
    requires
        u@.len() == v@.len() ==> {
            &&& all_fit::<K>(sub_seq(v@, u@))
            &&& all_fit::<K>(scale_seq(sub_seq(v@, u@), t.val()))
            &&& all_fit::<K>(lerp_seq(u@, v@, t.val()))
        },
    ensures
        r is Ok <==> u@.len() == v@.len(),
        r is Ok ==> r->Ok_0@ == lerp_seq(u@, v@, t.val()),
        r is Err ==> r->Err_0 == (IncompatibleError {
            expected: Dimension::D1(D1 { length: v@.len() as usize }),
            found: Dimension::D1(D1 { length: u@.len() as usize }),
        }),
{
    proof {
        lemma_len_bound(u);
        lemma_len_bound(v);
    }
    let mut slide = v.duplicate();
    match slide.sub(u) {
        Ok(()) => {},
        Err(e) => {
            return Err(e);
        },
    }
    slide.scl(t);
    let mut interp = u.duplicate();
    match interp.add(&slide) {
        Ok(()) => {},
        Err(e) => {
            return Err(e);
        },
    }
    Ok(interp)
}

/// The cosine of the angle between `u` and `v`, `dot(u, v) / (|u| |v|)`,
/// each division rounded toward zero and each norm the truncated square
/// root. Refused when the lengths differ, or when a norm is zero.
pub fn angle_cos<K: FieldBound>(u: &Vector<K>, v: &Vector<K>) -> (r: Result<K, AlgebraError>)
    requires
        u@.len() == v@.len() ==> {
            &&& dot_fits::<K>(u@, v@)
            &&& sqsum_fits::<K>(u@)
            &&& sqsum_fits::<K>(v@)
        },
    ensures
        u@.len() != v@.len() ==> r == Err::<K, AlgebraError>(
            AlgebraError::ShapeMismatch(
                IncompatibleError {
                    expected: Dimension::D1(D1 { length: u@.len() as usize }),
                    found: Dimension::D1(D1 { length: v@.len() as usize }),
                },
            ),
        ),
        u@.len() == v@.len() ==> (r == Err::<K, AlgebraError>(AlgebraError::DomainError) <==> (
        seq_sum(squares(u@)) == 0 || seq_sum(squares(v@)) == 0)),
        r is Ok <==> u@.len() == v@.len() && seq_sum(squares(u@)) != 0 && seq_sum(squares(v@))
            != 0,
        r is Ok ==> r->Ok_0.val() == trunc_div(
            trunc_div(dot_seq(u@, v@), floor_sqrt(seq_sum(squares(u@)))),
            floor_sqrt(seq_sum(squares(v@))),
        ),
{
    if u.len() != v.len() {
        return Err(AlgebraError::ShapeMismatch(IncompatibleError::new(u.shape(), v.shape())));
    }
    let d = u.dot(v);
    let nu = u.norm();
    let nv = v.norm();
    proof {
        lemma_squares_sum_nonneg(u@);
        lemma_squares_sum_nonneg(v@);
        lemma_floor_sqrt(nu.val(), seq_sum(squares(u@)));
        lemma_floor_sqrt(nv.val(), seq_sum(squares(v@)));
    }
    if nu.is_zero() || nv.is_zero() {
        proof {
            let su = seq_sum(squares(u@));
            let sv = seq_sum(squares(v@));
            assert(is_floor_sqrt(nu.val(), su));
            assert(is_floor_sqrt(nv.val(), sv));
            if nu.val() == 0 {
                let a = nu.val();
                assert(su < 1) by (nonlinear_arith)
                    requires
                        a == 0,
                        su < (a + 1) * (a + 1),
                ;
            }
            if nv.val() == 0 {
                let a = nv.val();
                assert(sv < 1) by (nonlinear_arith)
                    requires
                        a == 0,
                        sv < (a + 1) * (a + 1),
                ;
            }
        }
        return Err(AlgebraError::DomainError);
    }
    let z = K::zero();
    proof {
        assert(nu.val() >= 1);
        assert(nv.val() >= 1);
        assert(seq_sum(squares(u@)) != 0);
        assert(seq_sum(squares(v@)) != 0);
        K::lemma_val_fits(z);
        K::lemma_val_fits(d);
        let q = trunc_div(d.val(), nu.val());
        lemma_trunc_div_between(d.val(), nu.val());
        if d.val() >= 0 {
            K::lemma_fits_between(0, q, d.val());
        } else {
            K::lemma_fits_between(d.val(), q, 0);
        }
    }
    let q = d.quot(&nu);
    proof {
        K::lemma_val_fits(q);
        lemma_trunc_div_between(q.val(), nv.val());
        let q2 = trunc_div(q.val(), nv.val());
        if q.val() >= 0 {
            K::lemma_fits_between(0, q2, q.val());
        } else {
            K::lemma_fits_between(q.val(), q2, 0);
        }
    }
    Ok(q.quot(&nv))
}

/// Dividing by a positive integer, rounded toward zero, moves toward zero.
proof fn lemma_trunc_div_between(a: int, b: int)
    requires
        b >= 1,
    ensures
        a >= 0 ==> 0 <= trunc_div(a, b) <= a,
        a < 0 ==> a <= trunc_div(a, b) <= 0,
{
    let q = abs_int(a) / abs_int(b);
    assert(0 <= q <= abs_int(a)) by (nonlinear_arith)
        requires
            q == abs_int(a) / abs_int(b),
            abs_int(b) >= 1,
            abs_int(a) >= 0,
    ;
}

/// The cross product of two 3-element vectors; refused (with the offending
/// length) when either has another length.
pub fn cross_product<K: FieldBound>(u: &Vector<K>, v: &Vector<K>) -> (r: Result<
    Vector<K>,
    AlgebraError,
>)
    requires
        u@.len() == 3 && v@.len() == 3 ==> cross_fits::<K>(u@, v@),
    ensures
        u@.len() != 3 ==> r == Err::<Vector<K>, AlgebraError>(
            AlgebraError::DimensionError(u@.len() as usize),
        ),
        u@.len() == 3 && v@.len() != 3 ==> r == Err::<Vector<K>, AlgebraError>(
            AlgebraError::DimensionError(v@.len() as usize),
        ),
        r is Ok <==> u@.len() == 3 && v@.len() == 3,
        r is Ok ==> r->Ok_0@ == cross_seq(u@, v@),
{
    if u.len() != 3 {
        return Err(AlgebraError::DimensionError(u.len()));
    }
    if v.len() != 3 {
        return Err(AlgebraError::DimensionError(v.len()));
    }
    let a0 = u.get(0);
    let a1 = u.get(1);
    let a2 = u.get(2);
    let b0 = v.get(0);
    let b1 = v.get(1);
    let b2 = v.get(2);
    let c0 = a1.times(&b2).minus(&a2.times(&b1));
    let c1 = a2.times(&b0).minus(&a0.times(&b2));
    let c2 = a0.times(&b1).minus(&a1.times(&b0));
    let r = Vector::from_vec(vec![c0, c1, c2]);
    assert(r@ =~= cross_seq(u@, v@));
    Ok(r)
}

} // verus!
