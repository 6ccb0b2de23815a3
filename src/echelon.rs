//! Reduction to reduced row-echelon form by Gauss-Jordan elimination.
use vstd::prelude::*;

use crate::field::FieldBound;
use crate::matrix::{nrows, rect, swap_rows_cols, Matrix};
use crate::space::{scale_seq, VectorSpace};
use crate::vector::Vector;

verus! {

/// The first row at or after `start` whose entry in `col` is not zero.
pub open spec fn first_nonzero(col: Seq<int>, start: int) -> Option<int>
    decreases col.len() - start,
{
    if start < 0 || start >= col.len() {
        None
    } else if col[start] != 0 {
        Some(start)
    } else {
        first_nonzero(col, start + 1)
    }
}

/// Row `i`, from column `j` on, divided by the pivot at `(i, j)`, rounding
/// toward zero.
pub open spec fn normalize(c: Seq<Seq<int>>, i: int, j: int) -> Seq<Seq<int>> {
    Seq::new(
        c.len(),
        |cc: int|
            if cc >= j {
                c[cc].update(i, crate::field::trunc_div(c[cc][i], c[j][i]))
            } else {
                c[cc]
            },
    )
}

/// Every row `k < t` other than `i`, from column `j` on, less its entry in
/// column `j` times row `i`.
pub open spec fn elim_part(c: Seq<Seq<int>>, i: int, j: int, t: int) -> Seq<Seq<int>> {
    Seq::new(
        c.len(),
        |cc: int|
            if cc >= j {
                Seq::new(
                    c[cc].len(),
                    |k: int|
                        if k < t && k != i {
                            c[cc][k] - c[j][k] * c[cc][i]
                        } else {
                            c[cc][k]
                        },
                )
            } else {
                c[cc]
            },
    )
}

/// The matrix after the pivot at `(p, j)` is moved to row `i`, normalised,
/// and cleared from every other row.
pub open spec fn pivot_step(c: Seq<Seq<int>>, i: int, j: int, p: int) -> Seq<Seq<int>> {
    elim_part(normalize(pivot_moved(c, i, p), i, j), i, j, nrows(c) as int)
}

/// The matrix with the pivot row `p` moved to row `i` (rows `i` and `p`
/// exchanged).
pub open spec fn pivot_moved(c: Seq<Seq<int>>, i: int, p: int) -> Seq<Seq<int>> {
    if p != i {
        swap_rows_cols(c, p, i)
    } else {
        c
    }
}

/// Reduction of the first `j` columns: the matrix so far and the columns in
/// which a pivot was found (the `k`-th pivot lies on row `k`).
pub open spec fn rref_upto(c: Seq<Seq<int>>, j: nat) -> (Seq<Seq<int>>, Seq<int>)
    decreases j,
{
    if j == 0 {
        (c, Seq::empty())
    } else {
        let (a, piv) = rref_upto(c, (j - 1) as nat);
        let i = piv.len() as int;
        if i >= nrows(a) {
            (a, piv)
        } else {
            match first_nonzero(a[j - 1], i) {
                None => (a, piv),
                Some(p) => (pivot_step(a, i, j - 1, p), piv.push(j - 1)),
            }
        }
    }
}

/// The reduced row-echelon form, by Gauss-Jordan elimination that takes the
/// first non-zero entry of each column, from the current row down, as pivot.
pub open spec fn rref(c: Seq<Seq<int>>) -> Seq<Seq<int>> {
    rref_upto(c, c.len()).0
}

/// The pivot steps on column `j` with current row `i` can run in `K`.
pub open spec fn step_fits<K: FieldBound>(a: Seq<Seq<int>>, i: int, j: int) -> bool {
    i < nrows(a) && first_nonzero(a[j], i) is Some ==> {
        let s = pivot_moved(a, i, first_nonzero(a[j], i)->Some_0);
        let d = normalize(s, i, j);
        &&& forall|cc: int|
            j <= cc < a.len() ==> K::fits(
                #[trigger] crate::field::trunc_div(s[cc][i], s[j][i]),
            )
        &&& forall|k: int, cc: int|
            #![trigger d[j][k], d[cc][i]]
            0 <= k < nrows(a) && k != i && j <= cc < a.len() ==> K::fits(d[j][k] * d[cc][i])
                && K::fits(d[cc][k] - d[j][k] * d[cc][i])
    }
}

/// The whole reduction can run in `K`.
pub open spec fn rref_fits<K: FieldBound>(c: Seq<Seq<int>>) -> bool {
    forall|j: nat|
        j < c.len() ==> step_fits::<K>(
            (#[trigger] rref_upto(c, j)).0,
            rref_upto(c, j).1.len() as int,
            j as int,
        )
}

/// Clearing column `j` from every row but `i` with row `i` can run in `K`.
pub open spec fn elim_fits<K: FieldBound>(d: Seq<Seq<int>>, i: int, j: int) -> bool {
    forall|r: int, cc: int|
        #![trigger d[j][r], d[cc][i]]
        0 <= r < nrows(d) && r != i && j <= cc < d.len() ==> K::fits(d[j][r] * d[cc][i])
            && K::fits(d[cc][r] - d[j][r] * d[cc][i])
}

/// The first row at or after `start` with a non-zero entry in `col`, or
/// `start` when there is none.
fn find_nonzero_from<K: FieldBound>(col: &Vector<K>, start: usize) -> (r: usize)
    requires
        start < col@.len(),
    ensures
        r == (match first_nonzero(col@, start as int) {
            Some(p) => p,
            None => start as int,
        }),
{
    let n = col.len();
    let mut k: usize = start;
    while k < n
        invariant
            start <= k <= n == col@.len(),
            first_nonzero(col@, start as int) == first_nonzero(col@, k as int),
        decreases n - k,
    {
        if !col.get(k).is_zero() {
            return k;
        }
        k += 1;
    }
    start
}

/// Divides row `i`, from column `from` on, by `div`.
fn div_row_from<K: FieldBound>(m: &mut Matrix<K>, i: usize, from: usize, div: K)
    requires
        rect(old(m)@),
        i < nrows(old(m)@),
        div.val() != 0,
        forall|cc: int|
            from <= cc < old(m)@.len() ==> K::fits(
                #[trigger] crate::field::trunc_div(old(m)@[cc][i as int], div.val()),
            ),
    ensures
        final(m)@ == Seq::new(
            old(m)@.len(),
            |cc: int|
                if cc >= from {
                    old(m)@[cc].update(
                        i as int,
                        crate::field::trunc_div(old(m)@[cc][i as int], div.val()),
                    )
                } else {
                    old(m)@[cc]
                },
        ),
{
    let n = m.n_cols();
    let mut j: usize = from;
    while j < n
        invariant
            n == m@.len() == old(m)@.len(),
            rect(old(m)@),
            i < nrows(old(m)@),
            div.val() != 0,
            forall|cc: int|
                from <= cc < n ==> K::fits(
                    #[trigger] crate::field::trunc_div(old(m)@[cc][i as int], div.val()),
                ),
            forall|cc: int|
                0 <= cc < n ==> #[trigger] m@[cc] == (if from <= cc < j {
                    old(m)@[cc].update(
                        i as int,
                        crate::field::trunc_div(old(m)@[cc][i as int], div.val()),
                    )
                } else {
                    old(m)@[cc]
                }),
        decreases n - j,
    {
        if j >= from {
            assert(old(m)@[j as int].len() == nrows(old(m)@));
            assert(m@[j as int] == old(m)@[j as int]);
            let x = m.get(i, j).quot(&div);
            m.set_entry(i, j, x);
        }
        j += 1;
    }
    assert(m@ =~= Seq::new(
        old(m)@.len(),
        |cc: int|
            if cc >= from {
                old(m)@[cc].update(
                    i as int,
                    crate::field::trunc_div(old(m)@[cc][i as int], div.val()),
                )
            } else {
                old(m)@[cc]
            },
    ));
}

/// Row `i` from column `from` on.
fn clone_row_from<K: FieldBound>(m: &Matrix<K>, i: usize, from: usize) -> (r: Vector<K>)
    requires
        rect(m@),
        i < nrows(m@),
        from <= m@.len(),
    ensures
        r@ == Seq::new((m@.len() - from) as nat, |t: int| m@[from + t][i as int]),
{
    let n = m.n_cols();
    let mut fields: Vec<K> = Vec::new();
    let mut j: usize = from;
    while j < n
        invariant
            n == m@.len(),
            rect(m@),
            i < nrows(m@),
            from <= j <= n,
            fields@.len() == j - from,
            forall|t: int|
                0 <= t < j - from ==> (#[trigger] fields@[t]).val() == m@[from + t][i as int],
        decreases n - j,
    {
        assert(m@[j as int].len() == nrows(m@));
        fields.push(m.get(i, j));
        j += 1;
    }
    let r = Vector::from_vec(fields);
    assert(r@ =~= Seq::new((m@.len() - from) as nat, |t: int| m@[from + t][i as int]));
    r
}

/// Subtracts `v` from row `i`, from column `from` on.
fn sub_row_from<K: FieldBound>(m: &mut Matrix<K>, i: usize, from: usize, v: &Vector<K>)
    requires
        rect(old(m)@),
        i < nrows(old(m)@),
        from <= old(m)@.len(),
        v@.len() == old(m)@.len() - from,
        forall|cc: int|
            from <= cc < old(m)@.len() ==> K::fits(
                (#[trigger] old(m)@[cc][i as int]) - v@[cc - from],
            ),
    ensures
        final(m)@ == Seq::new(
            old(m)@.len(),
            |cc: int|
                if cc >= from {
                    old(m)@[cc].update(i as int, old(m)@[cc][i as int] - v@[cc - from])
                } else {
                    old(m)@[cc]
                },
        ),
{
    let n = m.n_cols();
    let mut j: usize = from;
    while j < n
        invariant
            n == m@.len() == old(m)@.len(),
            rect(old(m)@),
            i < nrows(old(m)@),
            from <= j <= n,
            v@.len() == n - from,
            forall|cc: int|
                from <= cc < n ==> K::fits((#[trigger] old(m)@[cc][i as int]) - v@[cc - from]),
            forall|cc: int|
                0 <= cc < n ==> #[trigger] m@[cc] == (if from <= cc < j {
                    old(m)@[cc].update(i as int, old(m)@[cc][i as int] - v@[cc - from])
                } else {
                    old(m)@[cc]
                }),
        decreases n - j,
    {
        assert(old(m)@[j as int].len() == nrows(old(m)@));
        assert(m@[j as int] == old(m)@[j as int]);
        assert(K::fits(old(m)@[j as int][i as int] - v@[j - from]));
        let x = m.get(i, j).minus(&v.get(j - from));
        m.set_entry(i, j, x);
        j += 1;
    }
    assert(m@ =~= Seq::new(
        old(m)@.len(),
        |cc: int|
            if cc >= from {
                old(m)@[cc].update(i as int, old(m)@[cc][i as int] - v@[cc - from])
            } else {
                old(m)@[cc]
            },
    ));
}

/// Clears column `j` from row `k` with the normalised pivot row `i`, given
/// as `v` from column `j` on: the step from `elim_part(d, i, j, k)` to
/// `elim_part(d, i, j, k + 1)`.
fn eliminate_row<K: FieldBound>(
    m: &mut Matrix<K>,
    Ghost(d): Ghost<Seq<Seq<int>>>,
    i: usize,
    j: usize,
    k: usize,
    v: &Vector<K>,
)
    requires
        rect(d),
        d.len() > 0,
        i < nrows(d),
        k < nrows(d),
        k != i,
        j < d.len(),
        old(m)@ == elim_part(d, i as int, j as int, k as int),
        v@ == Seq::new((d.len() - j) as nat, |t: int| d[j + t][i as int]),
        elim_fits::<K>(d, i as int, j as int),
    ensures
        final(m)@ == elim_part(d, i as int, j as int, k + 1),
{
    proof {
        lemma_elim_part_shape(d, i as int, j as int, k as int);
    }
    let f = m.get(k, j);
    assert(f.val() == d[j as int][k as int]);
    let mut v_scl = v.duplicate();
    proof {
        assert forall|t: int| 0 <= t < v@.len() implies K::fits(
            #[trigger] scale_seq(v@, f.val())[t],
        ) by {
            let x = d[j + t][k as int];
            assert(K::fits(d[j as int][k as int] * d[j + t][i as int]));
        }
    }
    v_scl.scl(f);
    proof {
        assert forall|cc: int| j <= cc < m@.len() implies K::fits(
            (#[trigger] m@[cc][k as int]) - v_scl@[cc - j],
        ) by {
            let x = d[cc][k as int];
            assert(K::fits(d[cc][k as int] - d[j as int][k as int] * d[cc][i as int]));
            assert(v_scl@[cc - j] == d[j as int][k as int] * d[cc][i as int]);
        }
    }
    sub_row_from(m, k, j, &v_scl);
    assert(m@ =~~= elim_part(d, i as int, j as int, k + 1));
}

/// Clears column `at_col` from every row above `until` whose entry there is
/// not zero, with the normalised pivot row `until` given as `v`.
fn neutralize_rows_until<K: FieldBound>(
    m: &mut Matrix<K>,
    Ghost(d): Ghost<Seq<Seq<int>>>,
    until: usize,
    at_col: usize,
    v: &Vector<K>,
)
    requires
        rect(d),
        d.len() > 0,
        until < nrows(d),
        at_col < d.len(),
        old(m)@ == d,
        v@ == Seq::new((d.len() - at_col) as nat, |t: int| d[at_col + t][until as int]),
        elim_fits::<K>(d, until as int, at_col as int),
    ensures
        final(m)@ == elim_part(d, until as int, at_col as int, until as int),
{
    assert(d =~~= elim_part(d, until as int, at_col as int, 0));
    let mut k: usize = 0;
    while k < until
        invariant
            rect(d),
            d.len() > 0,
            until < nrows(d),
            at_col < d.len(),
            k <= until,
            v@ == Seq::new((d.len() - at_col) as nat, |t: int| d[at_col + t][until as int]),
            elim_fits::<K>(d, until as int, at_col as int),
            m@ == elim_part(d, until as int, at_col as int, k as int),
        decreases until - k,
    {
        proof {
            lemma_elim_part_shape(d, until as int, at_col as int, k as int);
        }
        if m.get(k, at_col).is_zero() {
            proof {
                let f = d[at_col as int][k as int];
                assert(f == 0);
                assert forall|cc: int| 0 <= cc < d.len() implies #[trigger] (d[cc][k as int] - f
                    * d[cc][until as int]) == d[cc][k as int] by {
                    assert(f * d[cc][until as int] == 0) by (nonlinear_arith)
                        requires
                            f == 0,
                    ;
                }
                assert(elim_part(d, until as int, at_col as int, k as int) =~~= elim_part(
                    d,
                    until as int,
                    at_col as int,
                    k + 1,
                ));
            }
        } else {
            eliminate_row(m, Ghost(d), until, at_col, k, v);
        }
        k += 1;
    }
}

/// The partial elimination keeps the shape, and leaves column `j` below
/// row `t` as it was.
proof fn lemma_elim_part_shape(d: Seq<Seq<int>>, i: int, j: int, t: int)
    requires
        rect(d),
        d.len() > 0,
        0 <= j < d.len(),
        0 <= t,
    ensures
        elim_part(d, i, j, t).len() == d.len(),
        rect(elim_part(d, i, j, t)),
        nrows(elim_part(d, i, j, t)) == nrows(d),
        forall|cc: int|
            0 <= cc < d.len() ==> (#[trigger] elim_part(d, i, j, t)[cc]).len() == nrows(d),
        forall|k: int|
            t <= k < nrows(d) ==> #[trigger] elim_part(d, i, j, t)[j][k] == d[j][k],
{
    let e = elim_part(d, i, j, t);
    assert forall|cc: int| 0 <= cc < d.len() implies (#[trigger] e[cc]).len() == nrows(d) by {
        assert(d[cc].len() == d[0].len());
    }
    assert(d[j].len() == nrows(d));
    assert(e[j] =~= Seq::new(
        d[j].len(),
        |k: int|
            if k < t && k != i {
                d[j][k] - d[j][k] * d[j][i]
            } else {
                d[j][k]
            },
    ));
}

/// The first non-zero entry found from `start` on is non-zero, and every
/// entry before it is zero.
pub proof fn lemma_first_nonzero(col: Seq<int>, start: int)
    requires
        0 <= start,
    ensures
        first_nonzero(col, start) matches Some(p) ==> start <= p < col.len() && col[p] != 0,
        first_nonzero(col, start) is None && start < col.len() ==> col[start] == 0,
    decreases col.len() - start,
{
    if start < col.len() && col[start] == 0 {
        lemma_first_nonzero(col, start + 1);
    }
}

/// When no non-zero entry is found from `start` on, all of them are zero.
pub proof fn lemma_first_nonzero_none(col: Seq<int>, start: int, r: int)
    requires
        0 <= start <= r < col.len(),
        first_nonzero(col, start) is None,
    ensures
        col[r] == 0,
    decreases r - start,
{
    if start < r {
        lemma_first_nonzero_none(col, start + 1, r);
    }
}

/// What `step_fits` grants once the pivot is known.
proof fn lemma_step_fits<K: FieldBound>(a: Seq<Seq<int>>, i: int, j: int, p: int)
    requires
        step_fits::<K>(a, i, j),
        rect(a),
        0 <= i < nrows(a),
        0 <= j < a.len(),
        first_nonzero(a[j], i) == Some(p),
    ensures
        forall|cc: int|
            j <= cc < a.len() ==> K::fits(
                #[trigger] crate::field::trunc_div(
                    pivot_moved(a, i, p)[cc][i],
                    pivot_moved(a, i, p)[j][i],
                ),
            ),
        elim_fits::<K>(normalize(pivot_moved(a, i, p), i, j), i, j),
{
    lemma_first_nonzero(a[j], i);
    assert(a[j].len() == nrows(a));
    lemma_step_shape(a, i, j, p);
    let d = normalize(pivot_moved(a, i, p), i, j);
    assert forall|r: int, cc: int|
        #![trigger d[j][r], d[cc][i]]
        0 <= r < nrows(d) && r != i && j <= cc < d.len() implies K::fits(d[j][r] * d[cc][i])
            && K::fits(d[cc][r] - d[j][r] * d[cc][i]) by {
        let x = d[cc][r];
    }
}

/// Moving and normalising a row keeps a matrix rectangular.
proof fn lemma_step_shape(a: Seq<Seq<int>>, i: int, j: int, p: int)
    requires
        rect(a),
        0 <= i < nrows(a),
        0 <= p < nrows(a),
        0 <= j < a.len(),
    ensures
        ({
            let s = pivot_moved(a, i, p);
            &&& s.len() == a.len()
            &&& forall|cc: int| 0 <= cc < a.len() ==> (#[trigger] s[cc]).len() == nrows(a)
            &&& rect(s)
            &&& nrows(s) == nrows(a)
            &&& normalize(s, i, j).len() == a.len()
            &&& forall|cc: int|
                0 <= cc < a.len() ==> (#[trigger] normalize(s, i, j)[cc]).len() == nrows(a)
            &&& rect(normalize(s, i, j))
            &&& nrows(normalize(s, i, j)) == nrows(a)
        }),
{
    let s = pivot_moved(a, i, p);
    assert forall|cc: int| 0 <= cc < a.len() implies (#[trigger] s[cc]).len() == nrows(a) by {
        assert(a[cc].len() == a[0].len());
    }
    let d = normalize(s, i, j);
    assert forall|cc: int| 0 <= cc < a.len() implies (#[trigger] d[cc]).len() == nrows(a) by {
        assert(s[cc].len() == nrows(a));
    }
}

impl<K: FieldBound> Matrix<K> {
    /// The reduced row-echelon form (`rref`); the matrix itself is left
    /// unchanged.
    pub fn row_echelon(&self) -> (r: Matrix<K>)
        requires
            rect(self@),
            rref_fits::<K>(self@),
        ensures
            r@ == rref(self@),
    {
        let mut rech = self.duplicate();
        let rows = rech.n_rows();
        let cols = rech.n_cols();
        let ghost c = self@;
        let ghost mut piv: Seq<int> = Seq::empty();
        let mut i: usize = 0;
        let mut j: usize = 0;
        while j < cols
            invariant_except_break
                rref_upto(c, j as nat) == (rech@, piv),
                i == piv.len(),
            invariant
                c == self@,
                rect(c),
                rows == nrows(c),
                cols == c.len(),
                j <= cols,
                rref_fits::<K>(c),
                i <= rows,
                rect(rech@),
                rech@.len() == cols,
                nrows(rech@) == rows,
                forall|cc: int| 0 <= cc < cols ==> (#[trigger] rech@[cc]).len() == rows,
            ensures
                rech@ == rref(c),
            decreases cols - j,
        {
            let ghost a = rech@;
            proof {
                assert(step_fits::<K>(rref_upto(c, j as nat).0, piv.len() as int, j as int));
            }
            if i >= rows {
                j += 1;
                continue;
            }
            let arg = find_nonzero_from(rech.column(j), i);
            proof {
                lemma_first_nonzero(a[j as int], i as int);
            }
            if arg != i {
                rech.swap_rows(arg, i);
            }
            let ghost s = rech@;
            proof {
                lemma_step_shape(a, i as int, j as int, arg as int);
            }
            if rech.get(i, j).is_zero() {
                j += 1;
                continue;
            }
            let ghost p = arg as int;
            assert(first_nonzero(a[j as int], i as int) == Some(p));
            assert(s == pivot_moved(a, i as int, p));
            assert(step_fits::<K>(a, i as int, j as int));
            assert(forall|cc: int|
                j <= cc < a.len() ==> K::fits(
                    #[trigger] crate::field::trunc_div(s[cc][i as int], s[j as int][i as int]),
                ));
            proof {
                lemma_step_fits::<K>(a, i as int, j as int, p);
            }
            let f = rech.get(i, j);
            div_row_from(&mut rech, i, j, f);
            assert(rech@ =~= normalize(s, i as int, j as int));
            let ghost d = rech@;
            let partial = clone_row_from(&rech, i, j);
            neutralize_rows_until(&mut rech, Ghost(d), i, j, &partial);
            assert(elim_part(d, i as int, j as int, i as int) =~~= elim_part(
                d,
                i as int,
                j as int,
                i + 1,
            ));
            if i == rows - 1 {
                proof {
                    assert(elim_part(d, i as int, j as int, i + 1) =~~= elim_part(
                        d,
                        i as int,
                        j as int,
                        rows as int,
                    ));
                    lemma_elim_part_shape(d, i as int, j as int, rows as int);
                    piv = piv.push(j as int);
                    lemma_rref_stable(c, (j + 1) as nat, cols as nat);
                }
                break;
            }
            let mut k: usize = i + 1;
            while k < rows
                invariant
                    rect(d),
                    d.len() == cols,
                    nrows(d) == rows,
                    i < rows,
                    j < cols,
                    i + 1 <= k <= rows,
                    partial@ == Seq::new((d.len() - j) as nat, |t: int| d[j + t][i as int]),
                    elim_fits::<K>(d, i as int, j as int),
                    rech@ == elim_part(d, i as int, j as int, k as int),
                decreases rows - k,
            {
                eliminate_row(&mut rech, Ghost(d), i, j, k, &partial);
                k += 1;
            }
            proof {
                lemma_elim_part_shape(d, i as int, j as int, rows as int);
                piv = piv.push(j as int);
            }
            i += 1;
            j += 1;
        }
        rech
    }
}

/// Once every row holds a pivot, the remaining columns change nothing.
proof fn lemma_rref_stable(c: Seq<Seq<int>>, j: nat, k: nat)
    requires
        j <= k,
        rref_upto(c, j).1.len() >= nrows(rref_upto(c, j).0),
    ensures
        rref_upto(c, k) == rref_upto(c, j),
    decreases k - j,
{
    if j < k {
        lemma_rref_stable(c, j, (k - 1) as nat);
    }
}

} // verus!
