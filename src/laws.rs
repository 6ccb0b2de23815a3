//! Properties that relate the operations of the library to each other.
use vstd::prelude::*;

use crate::echelon::{
    elim_part, first_nonzero, normalize, pivot_moved, pivot_step, rref, rref_upto,
};
use crate::field::trunc_div;
use crate::determinant::det;
use crate::matrix::{mat_mul, nrows, rect, transpose_cols};
use crate::space::{add_seq, sub_seq};

verus! {

/// Adding `v` and then subtracting it gives back `u`.
pub proof fn lemma_add_sub_round_trip(u: Seq<int>, v: Seq<int>)
    requires
        u.len() == v.len(),
    ensures
        sub_seq(add_seq(u, v), v) == u,
{
    assert(sub_seq(add_seq(u, v), v) =~= u);
}

/// Transposing a square matrix twice gives it back.
pub proof fn lemma_transpose_twice(c: Seq<Seq<int>>)
    requires
        rect(c),
        nrows(c) == c.len(),
    ensures
        transpose_cols(transpose_cols(c)) == c,
{
    let t = transpose_cols(c);
    if c.len() > 0 {
        assert(nrows(t) == c.len());
    }
    assert forall|j: int| 0 <= j < c.len() implies #[trigger] transpose_cols(t)[j] == c[j] by {
        assert(c[j].len() == nrows(c));
        assert(transpose_cols(t)[j] =~= c[j]);
    }
    assert(transpose_cols(t) =~= c);
}

/// The product of an `m`-by-`n` and an `n`-by-`p` matrix is `m`-by-`p`.
pub proof fn lemma_mul_mat_shape(a: Seq<Seq<int>>, b: Seq<Seq<int>>)
    requires
        rect(a),
        rect(b),
        a.len() == nrows(b),
    ensures
        rect(mat_mul(a, b)),
        mat_mul(a, b).len() == b.len(),
        b.len() > 0 ==> nrows(mat_mul(a, b)) == nrows(a),
{
}

/// The determinant of `[[a, b], [c, d]]` is `a * d - b * c`.
pub proof fn lemma_det_2x2(a: int, b: int, c: int, d: int)
    ensures
        det(seq![seq![a, c], seq![b, d]]) == a * d - b * c,
{
    let m = seq![seq![a, c], seq![b, d]];
    assert(m[0][0] == a && m[0][1] == c && m[1][0] == b && m[1][1] == d);
    assert(a * d - c * b == a * d - b * c) by (nonlinear_arith);
}

/// A non-zero integer divided by itself is one.
proof fn lemma_div_self(x: int)
    requires
        x != 0,
    ensures
        trunc_div(x, x) == 1,
{
    let a = crate::field::abs_int(x);
    assert(a / a == 1) by (nonlinear_arith)
        requires
            a > 0,
    ;
}

/// Column `col` of `a` holds one at row `k` and zero on every other row.
pub open spec fn is_unit_col(a: Seq<Seq<int>>, col: int, k: int) -> bool {
    &&& a[col][k] == 1
    &&& forall|r: int| 0 <= r < nrows(a) && r != k ==> #[trigger] a[col][r] == 0
}

/// What holds after the reduction of the first `j` columns.
pub open spec fn rref_invariant(c: Seq<Seq<int>>, j: int) -> bool {
    let (a, piv) = rref_upto(c, j as nat);
    &&& rect(a)
    &&& a.len() == c.len()
    &&& nrows(a) == nrows(c)
    &&& forall|cc: int| 0 <= cc < a.len() ==> (#[trigger] a[cc]).len() == nrows(c)
    &&& piv.len() <= nrows(c)
    &&& forall|k: int| 0 <= k < piv.len() ==> 0 <= #[trigger] piv[k] < j
    &&& forall|k: int, l: int| 0 <= k < l < piv.len() ==> #[trigger] piv[k] < #[trigger] piv[l]
    &&& forall|k: int| 0 <= k < piv.len() ==> is_unit_col(a, #[trigger] piv[k], k)
    &&& forall|r: int, cc: int|
        piv.len() <= r < nrows(c) && 0 <= cc < j ==> #[trigger] a[cc][r] == 0
    &&& forall|k: int, cc: int|
        0 <= k < piv.len() && 0 <= cc < piv[k] ==> #[trigger] a[cc][k] == 0
}

proof fn lemma_rref_invariant(c: Seq<Seq<int>>, j: int)
    requires
        rect(c),
        0 <= j <= c.len(),
    ensures
        rref_invariant(c, j),
    decreases j,
{
    if j == 0 {
        assert forall|cc: int| 0 <= cc < c.len() implies (#[trigger] c[cc]).len() == nrows(c) by {
            assert(c[cc].len() == c[0].len());
        }
        return;
    }
    lemma_rref_invariant(c, j - 1);
    let (a, piv) = rref_upto(c, (j - 1) as nat);
    let i = piv.len() as int;
    let n = nrows(a);
    if i >= n {
        return;
    }
    let col = j - 1;
    crate::echelon::lemma_first_nonzero(a[col], i);
    match first_nonzero(a[col], i) {
        None => {
            assert forall|r: int, cc: int| i <= r < n && 0 <= cc < j implies #[trigger] a[cc][r]
                == 0 by {
                if cc == col {
                    crate::echelon::lemma_first_nonzero_none(a[col], i, r);
                }
            }
        },
        Some(p) => {
            assert(a[col].len() == n);
            let s = pivot_moved(a, i, p);
            let d = normalize(s, i, col);
            let e = elim_part(d, i, col, n as int);
            assert(e == pivot_step(a, i, col, p));
            let npiv = piv.push(col);
            assert(rref_upto(c, j as nat) == (e, npiv));
            assert forall|cc: int| 0 <= cc < a.len() implies (#[trigger] s[cc]).len() == n by {
                assert(a[cc].len() == n);
            }
            assert forall|cc: int| 0 <= cc < a.len() implies (#[trigger] e[cc]).len() == n by {
                assert(s[cc].len() == n);
            }
            if a.len() > 0 {
                assert(nrows(e) == n);
            }
            // The columns already reduced are unchanged: rows `i` and `p`
            // are zero there.
            assert forall|cc: int| 0 <= cc < col implies #[trigger] e[cc] == a[cc] by {
                assert(a[cc][p] == 0);
                assert(a[cc][i] == 0);
                assert(s[cc] =~= a[cc]);
            }
            assert forall|k: int| 0 <= k < i implies is_unit_col(e, #[trigger] npiv[k], k) by {
                let pc = piv[k];
                assert(npiv[k] == pc);
                assert(is_unit_col(a, pc, k));
                assert(e[pc] == a[pc]);
            }
            // The new pivot column is a unit column.
            assert(s[col][i] == a[col][p]);
            lemma_div_self(s[col][i]);
            assert(d[col][i] == 1);
            assert forall|r: int| 0 <= r < nrows(e) && r != i implies #[trigger] e[col][r] == 0 by {
                assert(e[col][r] == d[col][r] - d[col][r] * d[col][i]);
            }
            assert(is_unit_col(e, npiv[i], i));
            assert forall|r: int, cc: int| i + 1 <= r < n && 0 <= cc < j implies #[trigger] e[cc][r]
                == 0 by {
                if cc < col {
                    assert(e[cc] == a[cc]);
                }
            }
            assert forall|k: int, cc: int| 0 <= k < npiv.len() && 0 <= cc < npiv[k] implies #[trigger] e[cc][k]
                == 0 by {
                assert(npiv[k] <= col);
                assert(e[cc] == a[cc]);
                if k < i {
                    assert(npiv[k] == piv[k]);
                }
            }
        },
    }
}

/// The result is in reduced row-echelon form: each pivot column holds a
/// single non-zero entry, equal to one; the `k`-th pivot lies on row `k`,
/// the pivot columns increasing from left to right; every entry left of a
/// pivot is zero; and the rows below the last pivot are zero.
pub proof fn lemma_rref_is_reduced_echelon(c: Seq<Seq<int>>)
    requires
        rect(c),
    ensures
        ({
            let piv = rref_upto(c, c.len()).1;
            &&& rref_upto(c, c.len()).0 == rref(c)
            &&& forall|k: int, l: int|
                0 <= k < l < piv.len() ==> #[trigger] piv[k] < #[trigger] piv[l]
            &&& forall|k: int|
                0 <= k < piv.len() ==> 0 <= #[trigger] piv[k] < c.len() && is_unit_col(
                    rref(c),
                    piv[k],
                    k,
                )
            &&& forall|k: int, cc: int|
                0 <= k < piv.len() && 0 <= cc < piv[k] ==> #[trigger] rref(c)[cc][k] == 0
            &&& forall|r: int, cc: int|
                piv.len() <= r < nrows(c) && 0 <= cc < c.len() ==> #[trigger] rref(c)[cc][r] == 0
        }),
{
    lemma_rref_invariant(c, c.len() as int);
}

} // verus!
