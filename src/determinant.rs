//! Determinants by cofactor expansion.
use vstd::prelude::*;

use crate::field::FieldBound;
use crate::matrix::{minor, nrows, rect, Matrix};
use crate::shape::{AlgebraError, D2};
use crate::space::seq_sum;

verus! {

/// `1` at even positions, `-1` at odd ones.
pub open spec fn alt_sign(j: int) -> int {
    if j % 2 == 0 {
        1
    } else {
        -1
    }
}

/// The signed terms of the expansion along the first row.
pub open spec fn cofactor_terms(c: Seq<Seq<int>>) -> Seq<int>
    decreases c.len(), 0int,
{
    if c.len() == 0 {
        Seq::empty()
    } else {
        Seq::new(c.len(), |j: int| alt_sign(j) * (c[j][0] * det(minor(c, 0, j))))
    }
}

/// The determinant of a square matrix, by cofactor expansion along the
/// first row (zero for the empty matrix).
pub open spec fn det(c: Seq<Seq<int>>) -> int
    decreases c.len(), 1int,
{
    if c.len() == 0 {
        0
    } else if c.len() == 1 {
        c[0][0]
    } else if c.len() == 2 {
        c[0][0] * c[1][1] - c[0][1] * c[1][0]
    } else {
        seq_sum(cofactor_terms(c))
    }
}

/// The determinant can be computed in `K`: for a 2-by-2 matrix both
/// products and their difference fit; above, each minor's determinant can be
/// computed, and each term and running total of the expansion fits.
pub open spec fn det_fits<K: FieldBound>(c: Seq<Seq<int>>) -> bool
    decreases c.len(),
{
    if c.len() <= 1 {
        true
    } else if c.len() == 2 {
        &&& K::fits(c[0][0] * c[1][1])
        &&& K::fits(c[0][1] * c[1][0])
        &&& K::fits(c[0][0] * c[1][1] - c[0][1] * c[1][0])
    } else {
        forall|j: int|
            0 <= j < c.len() ==> {
                &&& det_fits::<K>(#[trigger] minor(c, 0, j))
                &&& K::fits(c[j][0] * det(minor(c, 0, j)))
                &&& K::fits(seq_sum(cofactor_terms(c).take(j + 1)))
            }
    }
}

impl<K: FieldBound> Matrix<K> {
    /// The determinant of a 1-by-1 or 2-by-2 matrix.
    pub fn determinant_sq_lt2(&self) -> (r: K)
        requires
            rect(self@),
            nrows(self@) == self@.len(),
            1 <= self@.len() <= 2,
            det_fits::<K>(self@),
        ensures
            r.val() == det(self@),
    {
        assert(self@[0].len() == self@.len());
        if self.n_cols() == 2 {
            assert(self@[1].len() == 2);
            let p = self.get(0, 0).times(&self.get(1, 1));
            let q = self.get(1, 0).times(&self.get(0, 1));
            p.minus(&q)
        } else {
            self.get(0, 0)
        }
    }

    /// Cofactor expansion of a non-empty square matrix.
    fn det_rec(&self) -> (r: K)
        requires
            rect(self@),
            nrows(self@) == self@.len(),
            self@.len() >= 1,
            det_fits::<K>(self@),
        ensures
            r.val() == det(self@),
        decreases self@.len(),
    {
        let n = self.n_cols();
        if n <= 2 {
            return self.determinant_sq_lt2();
        }
        let ghost c = self@;
        let ghost terms = cofactor_terms(c);
        let mut total = K::zero();
        let mut j: usize = 0;
        while j < n
            invariant
                c == self@,
                rect(c),
                nrows(c) == c.len() == n,
                n >= 3,
                det_fits::<K>(c),
                terms == cofactor_terms(c),
                j <= n,
                total.val() == seq_sum(terms.take(j as int)),
            decreases n - j,
        {
            let m = self.discard(0, j);
            proof {
                assert(det_fits::<K>(minor(c, 0, j as int)));
                assert(m@.len() == n - 1);
                assert(rect(m@));
                assert(nrows(m@) == n - 1);
            }
            let md = m.det_rec();
            assert(c[j as int].len() == n);
            let l = self.get(0, j).times(&md);
            proof {
                crate::vector::lemma_sum_step(terms, j as int);
                let x = c[j as int][0] * det(minor(c, 0, j as int));
                assert(l.val() == x);
                assert(terms[j as int] == alt_sign(j as int) * x);
                assert(K::fits(seq_sum(terms.take(j + 1))));
                if j % 2 == 0 {
                    assert(alt_sign(j as int) == 1);
                    assert(alt_sign(j as int) * x == x) by (nonlinear_arith)
                        requires
                            alt_sign(j as int) == 1,
                    ;
                } else {
                    assert(alt_sign(j as int) == -1);
                    assert(alt_sign(j as int) * x == -x) by (nonlinear_arith)
                        requires
                            alt_sign(j as int) == -1,
                    ;
                }
                if j == 0 {
                    assert(seq_sum(terms.take(0)) == 0);
                }
            }
            if j == 0 {
                total = l;
            } else if j % 2 == 0 {
                total = total.plus(&l);
            } else {
                total = total.minus(&l);
            }
            j += 1;
        }
        assert(terms.take(n as int) =~= terms);
        total
    }

    /// The determinant; refused for a matrix that is not square, or empty.
    pub fn determinant(&self) -> (r: Result<K, AlgebraError>)
        requires
            rect(self@),
            nrows(self@) == self@.len() && self@.len() >= 1 ==> det_fits::<K>(self@),
        ensures
            nrows(self@) != self@.len() <==> r == Err::<K, AlgebraError>(
                AlgebraError::NotSquare(
                    D2 { rows: nrows(self@) as usize, cols: self@.len() as usize },
                ),
            ),
            nrows(self@) == self@.len() && self@.len() == 0 <==> r == Err::<K, AlgebraError>(
                AlgebraError::EmptyOperand,
            ),
            r is Ok <==> nrows(self@) == self@.len() && self@.len() > 0,
            r is Ok ==> r->Ok_0.val() == det(self@),
    {
        if !self.is_square() {
            return Err(AlgebraError::NotSquare(D2 { rows: self.n_rows(), cols: self.n_cols() }));
        }
        if self.n_cols() == 0 {
            return Err(AlgebraError::EmptyOperand);
        }
        Ok(self.det_rec())
    }

}

} // verus!
