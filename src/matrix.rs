//! Dense matrices over a scalar field, stored as a sequence of columns.
use vstd::prelude::*;

use crate::field::{is_floor_sqrt, FieldBound};
use crate::shape::{AlgebraError, Dimension, IncompatibleError, D1, D2};
use crate::space::{
    abs_seq, abs_sum_fits, add_seq, all_fit, dot_fits, dot_seq, max_abs, mul_seq, scale_seq,
    seq_sum, sqsum_fits, squares, sub_seq, sums_fit, VectorSpace,
};
use crate::vector::{lemma_len_bound, lerp_seq, vals, views, Vector};

verus! {

/// A rectangular matrix, held as its columns.
#[derive(Debug, Clone, PartialEq)]
pub struct Matrix<K: FieldBound> {
    vectors: Vec<Vector<K>>,
}

impl<K: FieldBound> View for Matrix<K> {
    /// The columns; `self@[j][i]` is the entry at row `i`, column `j`.
    type V = Seq<Seq<int>>;

    closed spec fn view(&self) -> Seq<Seq<int>> {
        views(self.vectors@)
    }
}

/// All columns have the length of the first.
pub open spec fn rect(c: Seq<Seq<int>>) -> bool {
    forall|j: int| 0 <= j < c.len() ==> (#[trigger] c[j]).len() == c[0].len()
}

/// The number of rows (zero when there is no column).
pub open spec fn nrows(c: Seq<Seq<int>>) -> nat {
    if c.len() == 0 {
        0
    } else {
        c[0].len()
    }
}

/// Row `i`.
pub open spec fn row(c: Seq<Seq<int>>, i: int) -> Seq<int> {
    Seq::new(c.len(), |j: int| c[j][i])
}

/// The transposed matrix: its columns are the rows.
pub open spec fn transpose_cols(c: Seq<Seq<int>>) -> Seq<Seq<int>> {
    Seq::new(nrows(c), |i: int| row(c, i))
}

/// The matrix with rows `a` and `b` exchanged.
pub open spec fn swap_rows_cols(c: Seq<Seq<int>>, a: int, b: int) -> Seq<Seq<int>> {
    Seq::new(c.len(), |j: int| c[j].update(a, c[j][b]).update(b, c[j][a]))
}

/// The `n`-by-`n` matrix whose rows are read in order from `s`.
pub open spec fn square_from_flat(s: Seq<int>, n: nat) -> Seq<Seq<int>> {
    Seq::new(n, |j: int| Seq::new(n, |i: int| s[i * n + j]))
}

/// `r * r`.
pub open spec fn square_of(r: nat) -> nat {
    r * r
}

/// The root of `len` when `len` is a perfect square.
pub open spec fn exact_root(len: nat) -> Option<nat> {
    if exists|r: nat| #[trigger] square_of(r) == len {
        Some(choose|r: nat| #[trigger] square_of(r) == len)
    } else {
        None
    }
}

/// The entries column after column.
pub open spec fn flat(c: Seq<Seq<int>>) -> Seq<int>
    decreases c.len(),
{
    if c.len() == 0 {
        Seq::empty()
    } else {
        flat(c.drop_last()) + c.last()
    }
}

/// Combines two sequences elementwise with `f`.
pub open spec fn zip_seq(a: Seq<int>, b: Seq<int>, f: spec_fn(int, int) -> int) -> Seq<int> {
    Seq::new(a.len(), |i: int| f(a[i], b[i]))
}

/// Combines two matrices column by column with `f`.
pub open spec fn zip_cols(
    a: Seq<Seq<int>>,
    b: Seq<Seq<int>>,
    f: spec_fn(int, int) -> int,
) -> Seq<Seq<int>> {
    Seq::new(a.len(), |j: int| zip_seq(a[j], b[j], f))
}

/// Elementwise sum of two matrices.
pub open spec fn add_cols(a: Seq<Seq<int>>, b: Seq<Seq<int>>) -> Seq<Seq<int>> {
    Seq::new(a.len(), |j: int| add_seq(a[j], b[j]))
}

/// Elementwise difference of two matrices.
pub open spec fn sub_cols(a: Seq<Seq<int>>, b: Seq<Seq<int>>) -> Seq<Seq<int>> {
    Seq::new(a.len(), |j: int| sub_seq(a[j], b[j]))
}

/// Every entry multiplied by `t`.
pub open spec fn scale_cols(a: Seq<Seq<int>>, t: int) -> Seq<Seq<int>> {
    Seq::new(a.len(), |j: int| scale_seq(a[j], t))
}

/// Elementwise product of two matrices.
pub open spec fn mul_cols(a: Seq<Seq<int>>, b: Seq<Seq<int>>) -> Seq<Seq<int>> {
    Seq::new(a.len(), |j: int| mul_seq(a[j], b[j]))
}

/// Elementwise quotient of two matrices, rounded toward zero.
pub open spec fn div_cols(a: Seq<Seq<int>>, b: Seq<Seq<int>>) -> Seq<Seq<int>> {
    Seq::new(a.len(), |j: int| crate::space::div_seq(a[j], b[j]))
}

/// Every column multiplied elementwise by `v`.
pub open spec fn mul_cols_by(a: Seq<Seq<int>>, v: Seq<int>) -> Seq<Seq<int>> {
    Seq::new(a.len(), |j: int| mul_seq(a[j], v))
}

/// Every entry squared.
pub open spec fn square_cols(c: Seq<Seq<int>>) -> Seq<Seq<int>> {
    Seq::new(c.len(), |j: int| squares(c[j]))
}

/// Every entry's absolute value.
pub open spec fn abs_cols(c: Seq<Seq<int>>) -> Seq<Seq<int>> {
    Seq::new(c.len(), |j: int| abs_seq(c[j]))
}

/// The sum of each column.
pub open spec fn col_sums(c: Seq<Seq<int>>) -> Seq<int> {
    Seq::new(c.len(), |j: int| seq_sum(c[j]))
}

/// Combining column by column, then listing the entries, is combining the
/// listed entries.
proof fn lemma_flat_zip(a: Seq<Seq<int>>, b: Seq<Seq<int>>, f: spec_fn(int, int) -> int)
    requires
        a.len() == b.len(),
        forall|j: int| 0 <= j < a.len() ==> (#[trigger] a[j]).len() == b[j].len(),
    ensures
        flat(a).len() == flat(b).len(),
        flat(zip_cols(a, b, f)) == zip_seq(flat(a), flat(b), f),
    decreases a.len(),
{
    if a.len() > 0 {
        let a1 = a.drop_last();
        let b1 = b.drop_last();
        lemma_flat_zip(a1, b1, f);
        assert(zip_cols(a, b, f).drop_last() =~= zip_cols(a1, b1, f));
        assert(flat(zip_cols(a, b, f)) =~= zip_seq(flat(a), flat(b), f));
    }
}

/// Every entry of a column is an entry of the listing.
proof fn lemma_flat_all_fit<K: FieldBound>(c: Seq<Seq<int>>)
    requires
        all_fit::<K>(flat(c)),
    ensures
        forall|j: int| 0 <= j < c.len() ==> all_fit::<K>(#[trigger] c[j]),
    decreases c.len(),
{
    if c.len() > 0 {
        let c1 = c.drop_last();
        let p = flat(c1);
        assert forall|k: int| 0 <= k < p.len() implies K::fits(#[trigger] p[k]) by {
            assert(flat(c)[k] == p[k]);
        }
        lemma_flat_all_fit::<K>(c1);
        assert forall|j: int| 0 <= j < c.len() implies all_fit::<K>(#[trigger] c[j]) by {
            if j == c.len() - 1 {
                assert forall|k: int| 0 <= k < c[j].len() implies K::fits(#[trigger] c[j][k]) by {
                    assert(flat(c)[p.len() + k] == c[j][k]);
                }
            } else {
                assert(c[j] == c1[j]);
            }
        }
    }
}

/// The length of the listing of a rectangular matrix.
proof fn lemma_flat_len(c: Seq<Seq<int>>)
    requires
        rect(c),
    ensures
        flat(c).len() == c.len() * nrows(c),
    decreases c.len(),
{
    if c.len() > 0 {
        let c1 = c.drop_last();
        let r = nrows(c);
        assert forall|j: int| 0 <= j < c1.len() implies (#[trigger] c1[j]).len() == r by {
            assert(c1[j] == c[j]);
        }
        lemma_flat_len(c1);
        assert(c.last().len() == r);
        assert(flat(c).len() == flat(c1).len() + r);
        if c1.len() > 0 {
            assert(nrows(c1) == r);
        }
        assert(flat(c1).len() == c1.len() * r);
        assert(c.len() * r == c1.len() * r + r) by (nonlinear_arith)
            requires
                c1.len() + 1 == c.len(),
        ;
    }
}

/// The sum of a concatenation.
proof fn lemma_sum_concat(x: Seq<int>, y: Seq<int>)
    ensures
        seq_sum(x + y) == seq_sum(x) + seq_sum(y),
    decreases y.len(),
{
    if y.len() > 0 {
        lemma_sum_concat(x, y.drop_last());
        assert((x + y).drop_last() =~= x + y.drop_last());
    } else {
        assert(x + y =~= x);
    }
}

/// The sum of all entries is the sum of the column sums.
proof fn lemma_flat_sum(c: Seq<Seq<int>>)
    ensures
        seq_sum(flat(c)) == seq_sum(col_sums(c)),
    decreases c.len(),
{
    if c.len() > 0 {
        let c1 = c.drop_last();
        lemma_flat_sum(c1);
        lemma_sum_concat(flat(c1), c.last());
        assert(col_sums(c).drop_last() =~= col_sums(c1));
    }
}

/// The largest absolute value of a concatenation.
proof fn lemma_max_abs_concat(x: Seq<int>, y: Seq<int>)
    ensures
        max_abs(x + y) == (if max_abs(y) > max_abs(x) {
            max_abs(y)
        } else {
            max_abs(x)
        }),
        max_abs(y) >= 0,
    decreases y.len(),
{
    if y.len() > 0 {
        lemma_max_abs_concat(x, y.drop_last());
        assert((x + y).drop_last() =~= x + y.drop_last());
    } else {
        assert(x + y =~= x);
    }
}

/// `x` when it lies before `d`, else the next index: where position `x`
/// of the smaller matrix, once index `d` is removed, lies in the full one.
pub open spec fn skip_index(x: int, d: int) -> int {
    if x < d {
        x
    } else {
        x + 1
    }
}

/// The minor: the matrix without row `r` and column `k`.
pub open spec fn minor(c: Seq<Seq<int>>, r: int, k: int) -> Seq<Seq<int>> {
    Seq::new(
        (c.len() - 1) as nat,
        |j: int| Seq::new((nrows(c) - 1) as nat, |i: int| c[skip_index(j, k)][skip_index(i, r)]),
    )
}

/// The matrix product: entry `(i, j)` is the dot product of row `i` of `a`
/// and column `j` of `b`.
pub open spec fn mat_mul(a: Seq<Seq<int>>, b: Seq<Seq<int>>) -> Seq<Seq<int>> {
    Seq::new(b.len(), |j: int| Seq::new(nrows(a), |i: int| dot_seq(row(a, i), b[j])))
}

/// The matrix-vector product: entry `i` is the dot product of row `i` and `v`.
pub open spec fn mat_vec(a: Seq<Seq<int>>, v: Seq<int>) -> Seq<int> {
    Seq::new(nrows(a), |i: int| dot_seq(row(a, i), v))
}

/// The diagonal of a square matrix.
pub open spec fn diag(a: Seq<Seq<int>>) -> Seq<int> {
    Seq::new(a.len(), |i: int| a[i][i])
}

/// The matrix has no entry.
pub open spec fn is_empty_mat(a: Seq<Seq<int>>) -> bool {
    a.len() == 0 || nrows(a) == 0
}

/// The exact square root of `length`, if it is a perfect square.
pub fn perfect_square_root(length: usize) -> (r: Option<usize>)
    ensures
        r is Some <==> exact_root(length as nat) is Some,
        r is Some ==> r->Some_0 * r->Some_0 == length && exact_root(length as nat) == Some(
            r->Some_0 as nat,
        ),
{
    let root = crate::field::sqrt_usize(length);
    proof {
        lemma_root_unique(root as nat, length as nat);
    }
    if root as u128 * root as u128 == length as u128 {
        Some(root)
    } else {
        None
    }
}

/// A truncated square root decides whether an exact root exists.
proof fn lemma_root_unique(root: nat, len: nat)
    requires
        is_floor_sqrt(root as int, len as int),
    ensures
        root * root == len ==> exact_root(len) == Some(root),
        root * root != len ==> exact_root(len) is None,
{
    if exists|r: nat| #[trigger] square_of(r) == len {
        let c = choose|r: nat| #[trigger] square_of(r) == len;
        if c < root {
            assert(c * c < root * root) by (nonlinear_arith)
                requires
                    c < root,
            ;
        } else if c > root {
            assert((root + 1) * (root + 1) <= c * c) by (nonlinear_arith)
                requires
                    root + 1 <= c,
            ;
        }
        assert(c == root);
    } else {
        assert(square_of(root) != len);
    }
}

impl<K: FieldBound> Matrix<K> {
    /// The matrix whose columns are `content`; refused when they differ in
    /// length.
    pub fn from_columns(content: Vec<Vector<K>>) -> (r: Result<Self, AlgebraError>)
        ensures
            rect(views(content@)) <==> r is Ok,
            !rect(views(content@)) ==> r == Err::<Self, AlgebraError>(
                AlgebraError::ConstructionError,
            ),
            r is Ok ==> r->Ok_0@ == views(content@),
    {
        if !Self::is_rectangular(content.as_slice()) {
            return Err(AlgebraError::ConstructionError);
        }
        Ok(Matrix { vectors: content })
    }

    /// The matrix whose rows are `content`; refused when they differ in
    /// length.
    pub fn from_rows(content: &[Vector<K>]) -> (r: Result<Self, AlgebraError>)
        ensures
            rect(views(content@)) <==> r is Ok,
            !rect(views(content@)) ==> r == Err::<Self, AlgebraError>(
                AlgebraError::ConstructionError,
            ),
            r is Ok ==> r->Ok_0@ == transpose_cols(views(content@)),
    {
        if !Self::is_rectangular(content) {
            return Err(AlgebraError::ConstructionError);
        }
        let mut vectors: Vec<Vector<K>> = Vec::new();
        let mut i: usize = 0;
        while i < content.len()
            invariant
                i <= content@.len(),
                vectors@.len() == i,
                forall|k: int| 0 <= k < i ==> (#[trigger] vectors@[k])@ == views(content@)[k],
            decreases content@.len() - i,
        {
            vectors.push(content[i].duplicate());
            i += 1;
        }
        let m = Matrix { vectors };
        assert(m@ =~= views(content@));
        Ok(m.transpose())
    }

    /// Whether all of `content` have the length of the first.
    fn is_rectangular(content: &[Vector<K>]) -> (r: bool)
        ensures
            r == rect(views(content@)),
    {
        if content.len() == 0 {
            return true;
        }
        let len = content[0].len();
        let mut i: usize = 0;
        while i < content.len()
            invariant
                i <= content@.len(),
                len == views(content@)[0].len(),
                forall|k: int| 0 <= k < i ==> (#[trigger] views(content@)[k]).len() == len,
            decreases content@.len() - i,
        {
            assert(views(content@)[i as int] == content@[i as int]@);
            if content[i].len() != len {
                return false;
            }
            i += 1;
        }
        true
    }

    /// The `rows`-by-`cols` matrix with every entry `value`.
    pub fn filled(value: K, rows: usize, cols: usize) -> (r: Self)
        ensures
            r@ == Seq::new(cols as nat, |j: int| Seq::new(rows as nat, |i: int| value.val())),
    {
        let mut vectors: Vec<Vector<K>> = Vec::new();
        let mut j: usize = 0;
        while j < cols
            invariant
                j <= cols,
                vectors@.len() == j,
                forall|k: int|
                    0 <= k < j ==> (#[trigger] vectors@[k])@ == Seq::new(
                        rows as nat,
                        |i: int| value.val(),
                    ),
            decreases cols - j,
        {
            vectors.push(Vector::filled(value, rows));
            j += 1;
        }
        let m = Matrix { vectors };
        assert(m@ =~= Seq::new(cols as nat, |j: int| Seq::new(rows as nat, |i: int| value.val())));
        m
    }

    /// A copy of this matrix.
    pub fn duplicate(&self) -> (r: Self)
        ensures
            r@ == self@,
    {
        let mut vectors: Vec<Vector<K>> = Vec::new();
        let mut j: usize = 0;
        while j < self.vectors.len()
            invariant
                j <= self@.len(),
                vectors@.len() == j,
                forall|k: int| 0 <= k < j ==> (#[trigger] vectors@[k])@ == self@[k],
            decreases self@.len() - j,
        {
            vectors.push(self.vectors[j].duplicate());
            j += 1;
        }
        let m = Matrix { vectors };
        assert(m@ =~= self@);
        m
    }

    /// Column `j`.
    pub fn column(&self, j: usize) -> (r: &Vector<K>)
        requires
            j < self@.len(),
        ensures
            r@ == self@[j as int],
    {
        &self.vectors[j]
    }

    /// The number of rows (zero when there is no column).
    pub fn n_rows(&self) -> (r: usize)
        ensures
            r == nrows(self@),
    {
        if self.vectors.len() == 0 {
            0
        } else {
            self.vectors[0].len()
        }
    }

    /// The number of columns.
    pub fn n_cols(&self) -> (r: usize)
        ensures
            r == self@.len(),
    {
        self.vectors.len()
    }

    /// The entry at row `i`, column `j`.
    pub fn get(&self, i: usize, j: usize) -> (r: K)
        requires
            j < self@.len(),
            i < self@[j as int].len(),
        ensures
            r.val() == self@[j as int][i as int],
    {
        self.vectors[j].get(i)
    }

    /// Replaces the entry at row `i`, column `j`.
    pub(crate) fn set_entry(&mut self, i: usize, j: usize, x: K)
        requires
            j < old(self)@.len(),
            i < old(self)@[j as int].len(),
        ensures
            final(self)@ == old(self)@.update(
                j as int,
                old(self)@[j as int].update(i as int, x.val()),
            ),
    {
        self.vectors[j].set(i, x);
        assert(self@ =~= old(self)@.update(j as int, old(self)@[j as int].update(i as int, x.val())));
    }

    /// Whether there are as many rows as columns.
    pub fn is_square(&self) -> (r: bool)
        ensures
            r == (nrows(self@) == self@.len()),
    {
        self.n_rows() == self.vectors.len()
    }

    /// A copy of row `inx`.
    pub fn clone_row(&self, inx: usize) -> (r: Vector<K>)
        requires
            rect(self@),
            inx < nrows(self@),
        ensures
            r@ == row(self@, inx as int),
    {
        let n = self.vectors.len();
        let mut fields: Vec<K> = Vec::new();
        let mut j: usize = 0;
        while j < n
            invariant
                n == self@.len(),
                rect(self@),
                inx < nrows(self@),
                j <= n,
                fields@.len() == j,
                forall|k: int| 0 <= k < j ==> (#[trigger] fields@[k]).val() == self@[k][inx as int],
            decreases n - j,
        {
            assert(self@[j as int] == self.vectors@[j as int]@);
            assert(self@[j as int].len() == nrows(self@));
            fields.push(self.vectors[j].get(inx));
            j += 1;
        }
        let r = Vector::from_vec(fields);
        assert(r@ =~= row(self@, inx as int));
        r
    }

    /// Replaces row `inx` by `v`.
    pub fn set_row(&mut self, inx: usize, v: &Vector<K>)
        requires
            rect(old(self)@),
            inx < nrows(old(self)@),
            v@.len() == old(self)@.len(),
        ensures
            final(self)@ == Seq::new(
                old(self)@.len(),
                |j: int| old(self)@[j].update(inx as int, v@[j]),
            ),
    {
        let n = self.vectors.len();
        let mut j: usize = 0;
        while j < n
            invariant
                n == self@.len() == old(self)@.len() == v@.len(),
                rect(old(self)@),
                inx < nrows(old(self)@),
                j <= n,
                forall|k: int|
                    0 <= k < j ==> #[trigger] self@[k] == old(self)@[k].update(inx as int, v@[k]),
                forall|k: int| j <= k < n ==> #[trigger] self@[k] == old(self)@[k],
            decreases n - j,
        {
            self.set_entry(inx, j, v.get(j));
            j += 1;
        }
        assert(self@ =~= Seq::new(
            old(self)@.len(),
            |j: int| old(self)@[j].update(inx as int, v@[j]),
        ));
    }

    /// Exchanges columns `inx1` and `inx2`.
    pub fn swap_cols(&mut self, inx1: usize, inx2: usize)
        requires
            inx1 < old(self)@.len(),
            inx2 < old(self)@.len(),
        ensures
            final(self)@ == old(self)@.update(inx1 as int, old(self)@[inx2 as int]).update(
                inx2 as int,
                old(self)@[inx1 as int],
            ),
    {
        let cl1 = self.vectors[inx1].duplicate();
        let cl2 = self.vectors[inx2].duplicate();
        self.vectors.set(inx1, cl2);
        self.vectors.set(inx2, cl1);
        assert(self@ =~= old(self)@.update(inx1 as int, old(self)@[inx2 as int]).update(
            inx2 as int,
            old(self)@[inx1 as int],
        ));
    }

    /// Exchanges rows `inx1` and `inx2`.
    pub fn swap_rows(&mut self, inx1: usize, inx2: usize)
        requires
            rect(old(self)@),
            inx1 < nrows(old(self)@),
            inx2 < nrows(old(self)@),
        ensures
            final(self)@ == swap_rows_cols(old(self)@, inx1 as int, inx2 as int),
    {
        let cl1 = self.clone_row(inx1);
        let cl2 = self.clone_row(inx2);
        self.set_row(inx1, &cl2);
        self.set_row(inx2, &cl1);
        assert(self@ =~= swap_rows_cols(old(self)@, inx1 as int, inx2 as int));
    }

    /// The transposed matrix.
    pub fn transpose(&self) -> (r: Self)
        requires
            rect(self@),
        ensures
            r@ == transpose_cols(self@),
    {
        let rows = self.n_rows();
        let mut vectors: Vec<Vector<K>> = Vec::new();
        let mut i: usize = 0;
        while i < rows
            invariant
                rows == nrows(self@),
                rect(self@),
                i <= rows,
                vectors@.len() == i,
                forall|k: int| 0 <= k < i ==> (#[trigger] vectors@[k])@ == row(self@, k),
            decreases rows - i,
        {
            vectors.push(self.clone_row(i));
            i += 1;
        }
        let m = Matrix { vectors };
        assert(m@ =~= transpose_cols(self@));
        m
    }

    /// Replaces the matrix by its transpose.
    pub fn transpose_mut(&mut self)
        requires
            rect(old(self)@),
        ensures
            final(self)@ == transpose_cols(old(self)@),
    {
        *self = self.transpose();
    }

    /// Adds `v` as the last column; refused when the matrix has columns of
    /// another length.
    pub fn append_col(&mut self, v: Vector<K>) -> (r: Result<(), AlgebraError>)
        requires
            rect(old(self)@),
        ensures
            rect(final(self)@),
            r is Ok <==> (old(self)@.len() == 0 || nrows(old(self)@) == v@.len()),
            r is Ok ==> final(self)@ == old(self)@.push(v@),
            r is Err ==> *final(self) == *old(self) && r == Err::<(), AlgebraError>(
                AlgebraError::ShapeMismatch(
                    IncompatibleError {
                        expected: Dimension::D1(D1 { length: nrows(old(self)@) as usize }),
                        found: Dimension::D1(D1 { length: v@.len() as usize }),
                    },
                ),
            ),
    {
        let rows = self.n_rows();
        if self.vectors.len() != 0 && rows != v.len() {
            return Err(
                AlgebraError::ShapeMismatch(
                    IncompatibleError::new(
                        Dimension::D1(D1 { length: rows }),
                        Dimension::D1(D1 { length: v.len() }),
                    ),
                ),
            );
        }
        self.vectors.push(v);
        assert(self@ =~= old(self)@.push(v@));
        Ok(())
    }

    /// The sum of each column.
    pub fn col_sum(&self) -> (r: Vector<K>)
        requires
            forall|j: int| 0 <= j < self@.len() ==> sums_fit::<K>(#[trigger] self@[j]),
        ensures
            r@ == col_sums(self@),
    {
        let n = self.vectors.len();
        let mut fields: Vec<K> = Vec::new();
        let mut j: usize = 0;
        while j < n
            invariant
                n == self@.len(),
                forall|k: int| 0 <= k < n ==> sums_fit::<K>(#[trigger] self@[k]),
                j <= n,
                fields@.len() == j,
                forall|k: int| 0 <= k < j ==> (#[trigger] fields@[k]).val() == seq_sum(self@[k]),
            decreases n - j,
        {
            assert(self@[j as int] == self.vectors@[j as int]@);
            assert(sums_fit::<K>(self@[j as int]));
            fields.push(self.vectors[j].sum());
            j += 1;
        }
        let r = Vector::from_vec(fields);
        assert(r@ =~= col_sums(self@));
        r
    }

    /// The matrix without row `row_index` and column `col_index`.
    pub fn discard(&self, row_index: usize, col_index: usize) -> (r: Matrix<K>)
        requires
            rect(self@),
            row_index < nrows(self@),
            col_index < self@.len(),
        ensures
            r@ == minor(self@, row_index as int, col_index as int),
    {
        let rows = self.n_rows();
        let cols = self.vectors.len();
        let ghost c = self@;
        let mut vectors: Vec<Vector<K>> = Vec::new();
        let mut j: usize = 0;
        while j < cols - 1
            invariant
                c == self@,
                rect(c),
                rows == nrows(c),
                cols == c.len(),
                row_index < rows,
                col_index < cols,
                j <= cols - 1,
                vectors@.len() == j,
                forall|k: int|
                    0 <= k < j ==> (#[trigger] vectors@[k])@ == minor(
                        c,
                        row_index as int,
                        col_index as int,
                    )[k],
            decreases cols - 1 - j,
        {
            let src_j = if j < col_index {
                j
            } else {
                j + 1
            };
            let mut col: Vec<K> = Vec::new();
            let mut i: usize = 0;
            while i < rows - 1
                invariant
                    c == self@,
                    rect(c),
                    rows == nrows(c),
                    cols == c.len(),
                    row_index < rows,
                    j < cols - 1,
                    src_j == skip_index(j as int, col_index as int),
                    i <= rows - 1,
                    col@.len() == i,
                    forall|k: int|
                        0 <= k < i ==> (#[trigger] col@[k]).val() == c[src_j as int][skip_index(
                            k,
                            row_index as int,
                        )],
                decreases rows - 1 - i,
            {
                let src_i = if i < row_index {
                    i
                } else {
                    i + 1
                };
                assert(c[src_j as int].len() == rows);
                col.push(self.get(src_i, src_j));
                i += 1;
            }
            let v = Vector::from_vec(col);
            assert(v@ =~= minor(c, row_index as int, col_index as int)[j as int]);
            vectors.push(v);
            j += 1;
        }
        let m = Matrix { vectors };
        assert(m@ =~= minor(c, row_index as int, col_index as int));
        m
    }

    /// The product of this matrix and the vector `v`; refused when the
    /// length of `v` is not the number of columns.
    pub fn mul_vec(&self, v: &Vector<K>) -> (r: Result<Vector<K>, AlgebraError>)
        requires
            rect(self@),
            v@.len() == self@.len() ==> forall|i: int|
                0 <= i < nrows(self@) ==> dot_fits::<K>(#[trigger] row(self@, i), v@),
        ensures
            r is Ok <==> v@.len() == self@.len(),
            r is Ok ==> r->Ok_0@ == mat_vec(self@, v@),
            r is Err ==> r == Err::<Vector<K>, AlgebraError>(
                AlgebraError::ShapeMismatch(
                    IncompatibleError {
                        expected: Dimension::D1(D1 { length: self@.len() as usize }),
                        found: Dimension::D1(D1 { length: v@.len() as usize }),
                    },
                ),
            ),
    {
        let cols = self.n_cols();
        if v.len() != cols {
            return Err(
                AlgebraError::ShapeMismatch(
                    IncompatibleError::new(
                        Dimension::D1(D1 { length: cols }),
                        Dimension::D1(D1 { length: v.len() }),
                    ),
                ),
            );
        }
        let mut m = self.transpose();
        let ghost t = m@;
        proof {
            if t.len() > 0 {
                assert(t[0].len() == self@.len());
            }
            assert forall|j: int| 0 <= j < t.len() implies all_fit::<K>(
                #[trigger] mul_cols_by(t, v@)[j],
            ) by {
                assert(t[j] == row(self@, j));
                assert(dot_fits::<K>(row(self@, j), v@));
            }
        }
        let res = m.mul_columns_by(v);
        assert(res is Ok);
        proof {
            assert forall|k: int| 0 <= k < m@.len() implies sums_fit::<K>(#[trigger] m@[k]) by {
                assert(t[k] == row(self@, k));
                assert(dot_fits::<K>(row(self@, k), v@));
            }
        }
        let r = m.col_sum();
        assert(r@ =~= mat_vec(self@, v@));
        Ok(r)
    }

    /// The matrix product; refused when either operand is empty, or when
    /// the number of columns of this matrix is not the number of rows of `m`.
    pub fn mul_mat(&self, m: &Matrix<K>) -> (r: Result<Matrix<K>, AlgebraError>)
        requires
            rect(self@),
            rect(m@),
            !is_empty_mat(self@) && !is_empty_mat(m@) && self@.len() == nrows(m@) ==> forall|
                i: int,
                j: int,
            |
                0 <= i < nrows(self@) && 0 <= j < m@.len() ==> dot_fits::<K>(
                    #[trigger] row(self@, i),
                    #[trigger] m@[j],
                ),
        ensures
            is_empty_mat(self@) || is_empty_mat(m@) <==> r == Err::<Matrix<K>, AlgebraError>(
                AlgebraError::EmptyOperand,
            ),
            !is_empty_mat(self@) && !is_empty_mat(m@) && self@.len() != nrows(m@) ==> r == Err::<
                Matrix<K>,
                AlgebraError,
            >(
                AlgebraError::ShapeMismatch(
                    IncompatibleError {
                        expected: Dimension::D2(
                            D2 { rows: nrows(self@) as usize, cols: self@.len() as usize },
                        ),
                        found: Dimension::D2(
                            D2 { rows: nrows(m@) as usize, cols: m@.len() as usize },
                        ),
                    },
                ),
            ),
            r is Ok <==> !is_empty_mat(self@) && !is_empty_mat(m@) && self@.len() == nrows(m@),
            r is Ok ==> r->Ok_0@ == mat_mul(self@, m@),
    {
        if self.n_rows() == 0 || self.n_cols() == 0 || m.n_rows() == 0 || m.n_cols() == 0 {
            return Err(AlgebraError::EmptyOperand);
        }
        if self.n_cols() != m.n_rows() {
            return Err(
                AlgebraError::ShapeMismatch(IncompatibleError::new(self.shape(), m.shape())),
            );
        }
        let cl = self.transpose();
        let rows = cl.n_cols();
        assert(cl.vectors@.len() == rows);
        let cols = m.n_cols();
        let mut vectors: Vec<Vector<K>> = Vec::new();
        let mut j: usize = 0;
        while j < cols
            invariant
                cl@ == transpose_cols(self@),
                cl.vectors@.len() == rows,
                rows == nrows(self@),
                cols == m@.len(),
                rect(self@),
                rect(m@),
                self@.len() == nrows(m@),
                forall|i: int, k: int|
                    0 <= i < nrows(self@) && 0 <= k < m@.len() ==> dot_fits::<K>(
                        #[trigger] row(self@, i),
                        #[trigger] m@[k],
                    ),
                j <= cols,
                vectors@.len() == j,
                forall|k: int| 0 <= k < j ==> (#[trigger] vectors@[k])@ == mat_mul(self@, m@)[k],
            decreases cols - j,
        {
            let mut col: Vec<K> = Vec::new();
            let mut i: usize = 0;
            while i < rows
                invariant
                    cl@ == transpose_cols(self@),
                    cl.vectors@.len() == rows,
                    rows == nrows(self@),
                    cols == m@.len(),
                    j < cols,
                    rect(self@),
                    rect(m@),
                    self@.len() == nrows(m@),
                    forall|i: int, k: int|
                        0 <= i < nrows(self@) && 0 <= k < m@.len() ==> dot_fits::<K>(
                            #[trigger] row(self@, i),
                            #[trigger] m@[k],
                        ),
                    i <= rows,
                    col@.len() == i,
                    forall|k: int|
                        0 <= k < i ==> (#[trigger] col@[k]).val() == dot_seq(
                            row(self@, k),
                            m@[j as int],
                        ),
                decreases rows - i,
            {
                assert(cl@[i as int] == cl.vectors@[i as int]@);
                assert(m@[j as int] == m.vectors@[j as int]@);
                assert(m@[j as int].len() == nrows(m@));
                assert(dot_fits::<K>(row(self@, i as int), m@[j as int]));
                col.push(cl.vectors[i].dot(&m.vectors[j]));
                i += 1;
            }
            let c = Vector::from_vec(col);
            assert(c@ =~= mat_mul(self@, m@)[j as int]);
            vectors.push(c);
            j += 1;
        }
        let r = Matrix { vectors };
        assert(r@ =~= mat_mul(self@, m@));
        Ok(r)
    }

    /// The sum of the diagonal; refused for a matrix that is not square, or
    /// empty.
    pub fn trace(&self) -> (r: Result<K, AlgebraError>)
        requires
            rect(self@),
            nrows(self@) == self@.len() ==> sums_fit::<K>(diag(self@)),
        ensures
            nrows(self@) != self@.len() <==> r == Err::<K, AlgebraError>(
                AlgebraError::NotSquare(
                    D2 { rows: nrows(self@) as usize, cols: self@.len() as usize },
                ),
            ),
            nrows(self@) == self@.len() && self@.len() == 0 <==> r == Err::<K, AlgebraError>(
                AlgebraError::EmptyOperand,
            ),
            r is Ok <==> nrows(self@) == self@.len() && self@.len() > 0,
            r is Ok ==> r->Ok_0.val() == seq_sum(diag(self@)),
    {
        if !self.is_square() {
            return Err(AlgebraError::NotSquare(D2 { rows: self.n_rows(), cols: self.n_cols() }));
        }
        let n = self.vectors.len();
        if n == 0 {
            return Err(AlgebraError::EmptyOperand);
        }
        let ghost d = diag(self@);
        assert(self@[0].len() == n);
        let mut sum = self.get(0, 0);
        proof {
            crate::vector::lemma_sum_step(d, 0);
            assert(d.take(0) =~= Seq::<int>::empty());
        }
        let mut i: usize = 1;
        while i < n
            invariant
                d == diag(self@),
                rect(self@),
                nrows(self@) == self@.len() == n,
                sums_fit::<K>(d),
                1 <= i <= n,
                sum.val() == seq_sum(d.take(i as int)),
            decreases n - i,
        {
            proof {
                crate::vector::lemma_sum_step(d, i as int);
                assert(K::fits(seq_sum(d.take(i + 1))));
            }
            assert(self@[i as int].len() == n);
            sum = sum.plus(&self.get(i, i));
            i += 1;
        }
        assert(d.take(n as int) =~= d);
        Ok(sum)
    }

    /// The columns, in order.
    pub fn columns(&self) -> (r: &[Vector<K>])
        ensures
            views(r@) == self@,
    {
        self.vectors.as_slice()
    }

    /// Multiplies entry by entry by `m`; refused, with nothing changed, when
    /// the shapes differ.
    pub fn mul_elementwise(&mut self, m: &Matrix<K>) -> (r: Result<(), IncompatibleError>)
        requires
            rect(old(self)@),
            rect(m@),
            old(self).dims() == m.dims() ==> forall|j: int|
                0 <= j < old(self)@.len() ==> all_fit::<K>(
                    #[trigger] mul_cols(old(self)@, m@)[j],
                ),
        ensures
            rect(final(self)@),
            r is Ok <==> old(self).dims() == m.dims(),
            r is Ok ==> final(self)@ == mul_cols(old(self)@, m@),
            r is Err ==> *final(self) == *old(self) && r == Err::<(), IncompatibleError>(
                IncompatibleError { expected: old(self).dims(), found: m.dims() },
            ),
    {
        let (a, b) = (self.shape(), m.shape());
        if a != b {
            return Err(IncompatibleError::new(a, b));
        }
        proof {
            self.lemma_shape_eq(m);
        }
        let n = self.vectors.len();
        let mut j: usize = 0;
        while j < n
            invariant
                n == self@.len() == old(self)@.len() == m@.len(),
                forall|k: int| 0 <= k < n ==> (#[trigger] old(self)@[k]).len() == m@[k].len(),
                forall|k: int| 0 <= k < n ==> all_fit::<K>(#[trigger] mul_cols(old(self)@, m@)[k]),
                j <= n,
                forall|k: int| 0 <= k < j ==> #[trigger] self@[k] == mul_cols(old(self)@, m@)[k],
                forall|k: int| j <= k < n ==> #[trigger] self@[k] == old(self)@[k],
            decreases n - j,
        {
            assert(self@[j as int] == self.vectors@[j as int]@);
            assert(m@[j as int] == m.vectors@[j as int]@);
            assert(all_fit::<K>(mul_cols(old(self)@, m@)[j as int]));
            let ghost before = self@;
            let res = self.vectors[j].mul_elementwise(&m.vectors[j]);
            assert(res is Ok);
            assert(self@ =~= before.update(j as int, self.vectors@[j as int]@));
            j += 1;
        }
        assert(self@ =~= mul_cols(old(self)@, m@));
        proof {
            self.lemma_same_shape(old(self)@);
        }
        Ok(())
    }

    /// Divides entry by entry by `m`, rounding toward zero; refused, with
    /// nothing changed, when the shapes differ.
    pub fn div_elementwise(&mut self, m: &Matrix<K>) -> (r: Result<(), IncompatibleError>)
        requires
            rect(old(self)@),
            rect(m@),
            old(self).dims() == m.dims() ==> forall|j: int, i: int|
                0 <= j < old(self)@.len() && 0 <= i < m@[j].len() ==> #[trigger] m@[j][i] != 0
                    && K::fits(crate::field::trunc_div(old(self)@[j][i], m@[j][i])),
        ensures
            rect(final(self)@),
            r is Ok <==> old(self).dims() == m.dims(),
            r is Ok ==> final(self)@ == div_cols(old(self)@, m@),
            r is Err ==> *final(self) == *old(self) && r == Err::<(), IncompatibleError>(
                IncompatibleError { expected: old(self).dims(), found: m.dims() },
            ),
    {
        let (a, b) = (self.shape(), m.shape());
        if a != b {
            return Err(IncompatibleError::new(a, b));
        }
        proof {
            self.lemma_shape_eq(m);
        }
        let n = self.vectors.len();
        let mut j: usize = 0;
        while j < n
            invariant
                n == self@.len() == old(self)@.len() == m@.len(),
                forall|k: int| 0 <= k < n ==> (#[trigger] old(self)@[k]).len() == m@[k].len(),
                forall|k: int, i: int|
                    0 <= k < n && 0 <= i < m@[k].len() ==> #[trigger] m@[k][i] != 0 && K::fits(
                        crate::field::trunc_div(old(self)@[k][i], m@[k][i]),
                    ),
                j <= n,
                forall|k: int| 0 <= k < j ==> #[trigger] self@[k] == div_cols(old(self)@, m@)[k],
                forall|k: int| j <= k < n ==> #[trigger] self@[k] == old(self)@[k],
            decreases n - j,
        {
            assert(self@[j as int] == self.vectors@[j as int]@);
            assert(m@[j as int] == m.vectors@[j as int]@);
            assert forall|i: int| 0 <= i < m@[j as int].len() implies #[trigger] m@[j as int][i]
                != 0 && K::fits(
                crate::field::trunc_div(old(self)@[j as int][i], m@[j as int][i]),
            ) by {}
            let ghost before = self@;
            let res = self.vectors[j].div_elementwise(&m.vectors[j]);
            assert(res is Ok);
            assert(self@ =~= before.update(j as int, self.vectors@[j as int]@));
            j += 1;
        }
        assert(self@ =~= div_cols(old(self)@, m@));
        proof {
            self.lemma_same_shape(old(self)@);
        }
        Ok(())
    }

    /// Multiplies every column elementwise by `v`; refused, with nothing
    /// changed, when the columns are not as long as `v`.
    pub fn mul_columns_by(&mut self, v: &Vector<K>) -> (r: Result<(), IncompatibleError>)
        requires
            rect(old(self)@),
            old(self)@.len() == 0 || nrows(old(self)@) == v@.len() ==> forall|j: int|
                0 <= j < old(self)@.len() ==> all_fit::<K>(
                    #[trigger] mul_cols_by(old(self)@, v@)[j],
                ),
        ensures
            rect(final(self)@),
            r is Ok <==> old(self)@.len() == 0 || nrows(old(self)@) == v@.len(),
            r is Ok ==> final(self)@ == mul_cols_by(old(self)@, v@),
            r is Err ==> *final(self) == *old(self) && r == Err::<(), IncompatibleError>(
                IncompatibleError {
                    expected: Dimension::D1(D1 { length: nrows(old(self)@) as usize }),
                    found: Dimension::D1(D1 { length: v@.len() as usize }),
                },
            ),
    {
        let rows = self.n_rows();
        let n = self.vectors.len();
        if n != 0 && rows != v.len() {
            return Err(
                IncompatibleError::new(
                    Dimension::D1(D1 { length: rows }),
                    Dimension::D1(D1 { length: v.len() }),
                ),
            );
        }
        let mut j: usize = 0;
        while j < n
            invariant
                n == self@.len() == old(self)@.len(),
                rect(old(self)@),
                n == 0 || nrows(old(self)@) == v@.len(),
                forall|k: int| 0 <= k < n ==> all_fit::<K>(#[trigger] mul_cols_by(old(self)@, v@)[k]),
                j <= n,
                forall|k: int| 0 <= k < j ==> #[trigger] self@[k] == mul_cols_by(old(self)@, v@)[k],
                forall|k: int| j <= k < n ==> #[trigger] self@[k] == old(self)@[k],
            decreases n - j,
        {
            assert(self@[j as int] == self.vectors@[j as int]@);
            assert(old(self)@[j as int].len() == nrows(old(self)@));
            assert(all_fit::<K>(mul_cols_by(old(self)@, v@)[j as int]));
            let ghost before = self@;
            let res = self.vectors[j].mul_elementwise(v);
            assert(res is Ok);
            assert(self@ =~= before.update(j as int, self.vectors@[j as int]@));
            j += 1;
        }
        assert(self@ =~= mul_cols_by(old(self)@, v@));
        proof {
            self.lemma_same_shape(old(self)@);
        }
        Ok(())
    }

    /// The square matrix whose rows are read in order from `content`;
    /// refused when the length is not a perfect square.
    pub fn from_flat(content: &[K]) -> (r: Result<Self, AlgebraError>)
        ensures
            exact_root(content@.len()) is None <==> r == Err::<Self, AlgebraError>(
                AlgebraError::ConstructionError,
            ),
            exact_root(content@.len()) is Some ==> r is Ok && r->Ok_0@ == square_from_flat(
                vals(content@),
                exact_root(content@.len())->Some_0,
            ),
    {
        let len = content.len();
        let n = match perfect_square_root(len) {
            Some(n) => n,
            None => {
                return Err(AlgebraError::ConstructionError);
            },
        };
        let ghost s = vals(content@);
        let mut vectors: Vec<Vector<K>> = Vec::new();
        let mut j: usize = 0;
        while j < n
            invariant
                j <= n,
                n * n == len == content@.len(),
                s == vals(content@),
                vectors@.len() == j,
                forall|k: int|
                    0 <= k < j ==> (#[trigger] vectors@[k])@ == Seq::new(
                        n as nat,
                        |i: int| s[i * n + k],
                    ),
            decreases n - j,
        {
            let mut col: Vec<K> = Vec::new();
            let mut i: usize = 0;
            while i < n
                invariant
                    i <= n,
                    j < n,
                    n * n == len == content@.len(),
                    s == vals(content@),
                    col@.len() == i,
                    forall|k: int| 0 <= k < i ==> (#[trigger] col@[k]).val() == s[k * n + j],
                decreases n - i,
            {
                assert(i * n + j < n * n) by (nonlinear_arith)
                    requires
                        i < n,
                        j < n,
                ;
                col.push(content[i * n + j]);
                i += 1;
            }
            let c = Vector::from_vec(col);
            assert(c@ =~= Seq::new(n as nat, |i: int| s[i * n + j]));
            vectors.push(c);
            j += 1;
        }
        let m = Matrix { vectors };
        assert(m@ =~= square_from_flat(s, n as nat));
        Ok(m)
    }
}

impl<K: FieldBound> VectorSpace for Matrix<K> {
    type Field = K;

    open spec fn well_formed(&self) -> bool {
        rect(self@)
    }

    open spec fn dims(&self) -> Dimension {
        Dimension::D2(D2 { rows: nrows(self@) as usize, cols: self@.len() as usize })
    }

    open spec fn entries(&self) -> Seq<int> {
        flat(self@)
    }

    open spec fn sum_fits(&self) -> bool {
        &&& forall|j: int| 0 <= j < self@.len() ==> sums_fit::<K>(#[trigger] self@[j])
        &&& sums_fit::<K>(col_sums(self@))
    }

    open spec fn sqsum_fits(&self) -> bool {
        &&& forall|j: int| 0 <= j < self@.len() ==> sqsum_fits::<K>(#[trigger] self@[j])
        &&& sums_fit::<K>(col_sums(square_cols(self@)))
    }

    open spec fn norm_1_fits(&self) -> bool {
        &&& forall|j: int| 0 <= j < self@.len() ==> abs_sum_fits::<K>(#[trigger] self@[j])
        &&& sums_fit::<K>(col_sums(abs_cols(self@)))
    }

    fn shape(&self) -> (r: Dimension) {
        Dimension::D2(D2 { rows: self.n_rows(), cols: self.vectors.len() })
    }

    fn size(&self) -> (r: usize) {
        proof {
            lemma_flat_len(self@);
        }
        self.vectors.len() * self.n_rows()
    }

    fn add(&mut self, v: &Self) -> (r: Result<(), IncompatibleError>) {
        let (a, b) = (self.shape(), v.shape());
        if a != b {
            return Err(IncompatibleError::new(a, b));
        }
        proof {
            self.lemma_shape_eq(v);
            lemma_flat_zip(old(self)@, v@, |x: int, y: int| x + y);
            assert(zip_seq(flat(old(self)@), flat(v@), |x: int, y: int| x + y) =~= add_seq(
                flat(old(self)@),
                flat(v@),
            ));
            assert(zip_cols(old(self)@, v@, |x: int, y: int| x + y) =~~= add_cols(old(self)@, v@));
            lemma_flat_all_fit::<K>(add_cols(old(self)@, v@));
        }
        let n = self.vectors.len();
        let mut j: usize = 0;
        while j < n
            invariant
                n == self@.len() == old(self)@.len() == v@.len(),
                forall|k: int| 0 <= k < n ==> (#[trigger] old(self)@[k]).len() == v@[k].len(),
                forall|k: int| 0 <= k < n ==> all_fit::<K>(#[trigger] add_cols(old(self)@, v@)[k]),
                j <= n,
                forall|k: int| 0 <= k < j ==> #[trigger] self@[k] == add_cols(old(self)@, v@)[k],
                forall|k: int| j <= k < n ==> #[trigger] self@[k] == old(self)@[k],
            decreases n - j,
        {
            assert(self@[j as int] == self.vectors@[j as int]@);
            assert(v@[j as int] == v.vectors@[j as int]@);
            assert(all_fit::<K>(add_cols(old(self)@, v@)[j as int]));
            assert(add_cols(old(self)@, v@)[j as int] == add_seq(old(self)@[j as int], v@[j as int]));
            let ghost before = self@;
            let res = self.vectors[j].add(&v.vectors[j]);
            assert(res is Ok);
            assert(self@ =~= before.update(j as int, self.vectors@[j as int]@));
            assert(self@[j as int] == self.vectors@[j as int]@);
            j += 1;
        }
        assert(self@ =~= add_cols(old(self)@, v@));
        Ok(())
    }

    fn sub(&mut self, v: &Self) -> (r: Result<(), IncompatibleError>) {
        let (a, b) = (self.shape(), v.shape());
        if a != b {
            return Err(IncompatibleError::new(a, b));
        }
        proof {
            self.lemma_shape_eq(v);
            lemma_flat_zip(old(self)@, v@, |x: int, y: int| x - y);
            assert(zip_seq(flat(old(self)@), flat(v@), |x: int, y: int| x - y) =~= sub_seq(
                flat(old(self)@),
                flat(v@),
            ));
            assert(zip_cols(old(self)@, v@, |x: int, y: int| x - y) =~~= sub_cols(old(self)@, v@));
            lemma_flat_all_fit::<K>(sub_cols(old(self)@, v@));
        }
        let n = self.vectors.len();
        let mut j: usize = 0;
        while j < n
            invariant
                n == self@.len() == old(self)@.len() == v@.len(),
                forall|k: int| 0 <= k < n ==> (#[trigger] old(self)@[k]).len() == v@[k].len(),
                forall|k: int| 0 <= k < n ==> all_fit::<K>(#[trigger] sub_cols(old(self)@, v@)[k]),
                j <= n,
                forall|k: int| 0 <= k < j ==> #[trigger] self@[k] == sub_cols(old(self)@, v@)[k],
                forall|k: int| j <= k < n ==> #[trigger] self@[k] == old(self)@[k],
            decreases n - j,
        {
            assert(self@[j as int] == self.vectors@[j as int]@);
            assert(v@[j as int] == v.vectors@[j as int]@);
            assert(all_fit::<K>(sub_cols(old(self)@, v@)[j as int]));
            assert(sub_cols(old(self)@, v@)[j as int] == sub_seq(old(self)@[j as int], v@[j as int]));
            let ghost before = self@;
            let res = self.vectors[j].sub(&v.vectors[j]);
            assert(res is Ok);
            assert(self@ =~= before.update(j as int, self.vectors@[j as int]@));
            assert(self@[j as int] == self.vectors@[j as int]@);
            j += 1;
        }
        assert(self@ =~= sub_cols(old(self)@, v@));
        Ok(())
    }

    fn scl(&mut self, a: K) {
        let ghost t = a.val();
        proof {
            lemma_flat_zip(old(self)@, old(self)@, |x: int, y: int| t * x);
            assert(zip_seq(flat(old(self)@), flat(old(self)@), |x: int, y: int| t * x)
                =~= scale_seq(flat(old(self)@), t));
            assert(zip_cols(old(self)@, old(self)@, |x: int, y: int| t * x) =~~= scale_cols(old(self)@, t));
            lemma_flat_all_fit::<K>(scale_cols(old(self)@, t));
        }
        let n = self.vectors.len();
        let mut j: usize = 0;
        while j < n
            invariant
                n == self@.len() == old(self)@.len(),
                t == a.val(),
                rect(old(self)@),
                forall|k: int| 0 <= k < n ==> all_fit::<K>(#[trigger] scale_cols(old(self)@, t)[k]),
                j <= n,
                forall|k: int| 0 <= k < j ==> #[trigger] self@[k] == scale_cols(old(self)@, t)[k],
                forall|k: int| j <= k < n ==> #[trigger] self@[k] == old(self)@[k],
            decreases n - j,
        {
            assert(self@[j as int] == self.vectors@[j as int]@);
            assert(all_fit::<K>(scale_cols(old(self)@, t)[j as int]));
            assert(scale_cols(old(self)@, t)[j as int] == scale_seq(old(self)@[j as int], t));
            let ghost before = self@;
            self.vectors[j].scl(a);
            assert(self@ =~= before.update(j as int, self.vectors@[j as int]@));
            assert(self@[j as int] == self.vectors@[j as int]@);
            j += 1;
        }
        assert(self@ =~= scale_cols(old(self)@, t));
        assert(rect(self@));
        if n > 0 {
            assert(nrows(self@) == nrows(old(self)@));
        }
    }

    fn sum(&self) -> (r: K) {
        let cs = self.col_sum();
        proof {
            lemma_flat_sum(self@);
        }
        cs.sum()
    }

    fn sqsum(&self) -> (r: K) {
        let n = self.vectors.len();
        let mut fields: Vec<K> = Vec::new();
        let mut j: usize = 0;
        while j < n
            invariant
                n == self@.len(),
                self.sqsum_fits(),
                j <= n,
                fields@.len() == j,
                forall|k: int|
                    0 <= k < j ==> (#[trigger] fields@[k]).val() == seq_sum(squares(self@[k])),
            decreases n - j,
        {
            assert(self@[j as int] == self.vectors@[j as int]@);
            assert(sqsum_fits::<K>(self@[j as int]));
            fields.push(self.vectors[j].sqsum());
            j += 1;
        }
        let sums = Vector::from_vec(fields);
        assert(sums@ =~= col_sums(square_cols(self@)));
        proof {
            lemma_flat_zip(self@, self@, |x: int, y: int| x * x);
            assert(zip_cols(self@, self@, |x: int, y: int| x * x) =~~= square_cols(self@));
            assert(zip_seq(flat(self@), flat(self@), |x: int, y: int| x * x) =~= squares(
                flat(self@),
            ));
            lemma_flat_sum(square_cols(self@));
        }
        sums.sum()
    }

    fn norm_inf(&self) -> (r: K) {
        proof {
            lemma_flat_zip(self@, self@, |x: int, y: int| crate::field::abs_int(x));
            assert(zip_seq(flat(self@), flat(self@), |x: int, y: int| crate::field::abs_int(x))
                =~= abs_seq(flat(self@)));
            assert(zip_cols(self@, self@, |x: int, y: int| crate::field::abs_int(x)) =~~= abs_cols(
                self@,
            ));
            lemma_flat_all_fit::<K>(abs_cols(self@));
        }
        let n = self.vectors.len();
        let mut max = K::zero();
        let mut j: usize = 0;
        while j < n
            invariant
                n == self@.len(),
                forall|k: int| 0 <= k < n ==> all_fit::<K>(#[trigger] abs_cols(self@)[k]),
                j <= n,
                max.val() == max_abs(flat(self@.take(j as int))),
            decreases n - j,
        {
            assert(self@[j as int] == self.vectors@[j as int]@);
            assert(all_fit::<K>(abs_cols(self@)[j as int]));
            assert(abs_cols(self@)[j as int] == abs_seq(self@[j as int]));
            let c = self.vectors[j].norm_inf();
            proof {
                assert(self@.take(j + 1).drop_last() =~= self@.take(j as int));
                lemma_max_abs_concat(flat(self@.take(j as int)), self@[j as int]);
            }
            if max.less_than(&c) {
                max = c;
            }
            j += 1;
        }
        assert(self@.take(n as int) =~= self@);
        max
    }

    fn norm_1(&self) -> (r: K) {
        let n = self.vectors.len();
        let mut fields: Vec<K> = Vec::new();
        let mut j: usize = 0;
        while j < n
            invariant
                n == self@.len(),
                self.norm_1_fits(),
                j <= n,
                fields@.len() == j,
                forall|k: int|
                    0 <= k < j ==> (#[trigger] fields@[k]).val() == seq_sum(abs_seq(self@[k])),
            decreases n - j,
        {
            assert(self@[j as int] == self.vectors@[j as int]@);
            assert(abs_sum_fits::<K>(self@[j as int]));
            fields.push(self.vectors[j].norm_1());
            j += 1;
        }
        let sums = Vector::from_vec(fields);
        assert(sums@ =~= col_sums(abs_cols(self@)));
        proof {
            lemma_flat_zip(self@, self@, |x: int, y: int| crate::field::abs_int(x));
            assert(zip_cols(self@, self@, |x: int, y: int| crate::field::abs_int(x)) =~~= abs_cols(
                self@,
            ));
            assert(zip_seq(flat(self@), flat(self@), |x: int, y: int| crate::field::abs_int(x))
                =~= abs_seq(flat(self@)));
            lemma_flat_sum(abs_cols(self@));
        }
        sums.sum()
    }

    fn norm(&self) -> (r: K) {
        let s = self.sqsum();
        proof {
            crate::vector::lemma_squares_sum_nonneg(flat(self@));
        }
        s.sqrt()
    }
}

impl<K: FieldBound> Matrix<K> {
    /// A matrix whose columns have the lengths of those of a rectangular
    /// `old` is rectangular.
    proof fn lemma_same_shape(&self, old: Seq<Seq<int>>)
        requires
            rect(old),
            self@.len() == old.len(),
            forall|k: int| 0 <= k < old.len() ==> (#[trigger] self@[k]).len() == old[k].len(),
        ensures
            rect(self@),
            nrows(self@) == nrows(old),
    {
        assert forall|k: int| 0 <= k < self@.len() implies (#[trigger] self@[k]).len()
            == self@[0].len() by {
            assert(old[k].len() == old[0].len());
        }
    }

    /// Equal shapes mean equal column counts and column lengths.
    proof fn lemma_shape_eq(&self, v: &Self)
        requires
            rect(self@),
            rect(v@),
            self.dims() == v.dims(),
        ensures
            self@.len() == v@.len(),
            forall|k: int| 0 <= k < self@.len() ==> (#[trigger] self@[k]).len() == v@[k].len(),
    {
        assert(self@.len() == self.vectors@.len());
        assert(v@.len() == v.vectors@.len());
        assert(self.vectors@.len() == self.vectors.len());
        assert(v.vectors@.len() == v.vectors.len());
        assert(self@.len() == v@.len());
        if self@.len() > 0 {
            lemma_len_bound(&self.vectors@[0]);
            lemma_len_bound(&v.vectors@[0]);
            assert(self@[0] == self.vectors@[0]@);
            assert(v@[0] == v.vectors@[0]@);
        }
    }
}

} // verus!

verus! {

/// The linear interpolation `u + t * (v - u)`, entry by entry; refused when
/// the shapes differ.
pub fn lerp<K: FieldBound>(u: &Matrix<K>, v: &Matrix<K>, t: K) -> (r: Result<
    Matrix<K>,
    IncompatibleError,
>)
    requires
        rect(u@),
        rect(v@),
        u.dims() == v.dims() ==> {
            &&& all_fit::<K>(sub_seq(flat(v@), flat(u@)))
            &&& all_fit::<K>(scale_seq(sub_seq(flat(v@), flat(u@)), t.val()))
            &&& all_fit::<K>(lerp_seq(flat(u@), flat(v@), t.val()))
        },
    ensures
        r is Ok <==> u.dims() == v.dims(),
        r is Ok ==> rect(r->Ok_0@) && r->Ok_0.dims() == u.dims() && flat(r->Ok_0@) == lerp_seq(
            flat(u@),
            flat(v@),
            t.val(),
        ),
        r is Err ==> r->Err_0 == (IncompatibleError { expected: v.dims(), found: u.dims() }),
{
    let mut slide = v.duplicate();
    match slide.sub(u) {
        Ok(()) => {},
        Err(e) => {
            return Err(e);
        },
    }
    slide.scl(t);
    let mut interp = u.duplicate();
    match interp.add(&slide) {
        Ok(()) => {},
        Err(e) => {
            return Err(e);
        },
    }
    Ok(interp)
}

} // verus!
