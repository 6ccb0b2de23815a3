//! The scalar capability set that vectors and matrices are generic over.
use vstd::prelude::*;

use num_integer::Roots;
use num_traits::sign::Signed;

verus! {

/// Absolute value of an integer.
pub open spec fn abs_int(x: int) -> int {
    if x < 0 {
        -x
    } else {
        x
    }
}

/// Division rounded toward zero, as machine integers divide.
pub open spec fn trunc_div(a: int, b: int) -> int {
    let q = abs_int(a) / abs_int(b);
    if (a < 0) == (b < 0) {
        q
    } else {
        -q
    }
}

/// `r` is the truncated square root of `x`: `r² <= x < (r+1)²`.
pub open spec fn is_floor_sqrt(r: int, x: int) -> bool {
    0 <= r && r * r <= x < (r + 1) * (r + 1)
}

/// The truncated square root of `x` (zero for `x <= 0`).
pub open spec fn floor_sqrt(x: int) -> int
    decreases x,
{
    if x <= 0 {
        0
    } else {
        let r = floor_sqrt(x - 1);
        if (r + 1) * (r + 1) <= x {
            r + 1
        } else {
            r
        }
    }
}

/// `floor_sqrt` is the truncated square root, and the only one.
pub proof fn lemma_floor_sqrt(r: int, x: int)
    requires
        x >= 0,
    ensures
        is_floor_sqrt(floor_sqrt(x), x),
        is_floor_sqrt(r, x) ==> r == floor_sqrt(x),
    decreases x,
{
    if x > 0 {
        lemma_floor_sqrt(0, x - 1);
        let q = floor_sqrt(x - 1);
        assert((q + 1) * (q + 1) <= x || x < (q + 1) * (q + 1));
        if (q + 1) * (q + 1) <= x {
            assert(x < (q + 2) * (q + 2)) by (nonlinear_arith)
                requires
                    x - 1 < (q + 1) * (q + 1),
                    0 <= q,
            ;
        }
    }
    let f = floor_sqrt(x);
    if is_floor_sqrt(r, x) && r != f {
        if r < f {
            assert((r + 1) * (r + 1) <= f * f) by (nonlinear_arith)
                requires
                    0 <= r + 1 <= f,
            ;
        } else {
            assert((f + 1) * (f + 1) <= r * r) by (nonlinear_arith)
                requires
                    0 <= f + 1 <= r,
            ;
        }
    }
}

/// A scalar type. Each value stands for an integer (`val`); the arithmetic
/// methods compute exactly on those integers, provided that the result can be
/// held by the type (`fits`). Zero is tested exactly.
pub trait FieldBound: Sized + Copy {
    /// The integer this scalar stands for.
    spec fn val(&self) -> int;

    /// Whether the integer `x` can be held by this scalar type.
    spec fn fits(x: int) -> bool;

    /// Every value is representable.
    proof fn lemma_val_fits(x: Self)
        ensures
            Self::fits(x.val()),
    ;

    /// The representable integers form an interval.
    proof fn lemma_fits_between(lo: int, x: int, hi: int)
        requires
            Self::fits(lo),
            Self::fits(hi),
            lo <= x <= hi,
        ensures
            Self::fits(x),
    ;

    /// The additive identity.
    fn zero() -> (r: Self)
        ensures
            r.val() == 0,
    ;

    /// The sum.
    fn plus(&self, o: &Self) -> (r: Self)
        requires
            Self::fits(self.val() + o.val()),
        ensures
            r.val() == self.val() + o.val(),
    ;

    /// The difference.
    fn minus(&self, o: &Self) -> (r: Self)
        requires
            Self::fits(self.val() - o.val()),
        ensures
            r.val() == self.val() - o.val(),
    ;

    /// The product.
    fn times(&self, o: &Self) -> (r: Self)
        requires
            Self::fits(self.val() * o.val()),
        ensures
            r.val() == self.val() * o.val(),
    ;

    /// Division rounded toward zero.
    fn quot(&self, o: &Self) -> (r: Self)
        requires
            o.val() != 0,
            Self::fits(trunc_div(self.val(), o.val())),
        ensures
            r.val() == trunc_div(self.val(), o.val()),
    ;

    /// The negation.
    fn negate(&self) -> (r: Self)
        requires
            Self::fits(-self.val()),
        ensures
            r.val() == -self.val(),
    ;

    /// Whether this value is the smaller.
    fn less_than(&self, o: &Self) -> (r: bool)
        ensures
            r == (self.val() < o.val()),
    ;

    /// The absolute value.
    fn abs(&self) -> (r: Self)
        requires
            Self::fits(abs_int(self.val())),
        ensures
            r.val() == abs_int(self.val()),
    ;

    /// The truncated square root.
    fn sqrt(&self) -> (r: Self)
        requires
            self.val() >= 0,
        ensures
            is_floor_sqrt(r.val(), self.val()),
    ;

    /// Whether this is zero (tested exactly; pivots are chosen by it).
    fn is_zero(&self) -> (r: bool)
        ensures
            r == (self.val() == 0),
    ;
}

/// Relies on num_traits::Signed::abs for i64: `-x` for a negative `x`, else
/// `x`. It overflows on `i64::MIN`, which `requires` leaves out.
#[verifier::external_body]
fn abs_i64(x: i64) -> (r: i64)
    requires
        x != i64::MIN,
    ensures
        r as int == abs_int(x as int),
{
    Signed::abs(&x)
}

/// Relies on num_integer::Roots::sqrt for i64: the truncated square root,
/// `r² <= x < (r+1)²`. It panics on a negative `x`.
#[verifier::external_body]
fn sqrt_i64(x: i64) -> (r: i64)
    requires
        x >= 0,
    ensures
        is_floor_sqrt(r as int, x as int),
{
    Roots::sqrt(&x)
}

/// Relies on num_traits::Signed::abs for i32, as for i64.
#[verifier::external_body]
fn abs_i32(x: i32) -> (r: i32)
    requires
        x != i32::MIN,
    ensures
        r as int == abs_int(x as int),
{
    Signed::abs(&x)
}

/// Relies on num_integer::Roots::sqrt for i32, as for i64.
#[verifier::external_body]
fn sqrt_i32(x: i32) -> (r: i32)
    requires
        x >= 0,
    ensures
        is_floor_sqrt(r as int, x as int),
{
    Roots::sqrt(&x)
}

/// Relies on num_traits::Signed::abs for i8, as for i64.
#[verifier::external_body]
fn abs_i8(x: i8) -> (r: i8)
    requires
        x != i8::MIN,
    ensures
        r as int == abs_int(x as int),
{
    Signed::abs(&x)
}

/// Relies on num_integer::Roots::sqrt for i8, as for i64.
#[verifier::external_body]
fn sqrt_i8(x: i8) -> (r: i8)
    requires
        x >= 0,
    ensures
        is_floor_sqrt(r as int, x as int),
{
    Roots::sqrt(&x)
}

/// Relies on num_traits::Signed::abs for i16, as for i64.
#[verifier::external_body]
fn abs_i16(x: i16) -> (r: i16)
    requires
        x != i16::MIN,
    ensures
        r as int == abs_int(x as int),
{
    Signed::abs(&x)
}

/// Relies on num_integer::Roots::sqrt for i16, as for i64.
#[verifier::external_body]
fn sqrt_i16(x: i16) -> (r: i16)
    requires
        x >= 0,
    ensures
        is_floor_sqrt(r as int, x as int),
{
    Roots::sqrt(&x)
}

/// Relies on num_traits::Signed::abs for i128, as for i64.
#[verifier::external_body]
fn abs_i128(x: i128) -> (r: i128)
    requires
        x != i128::MIN,
    ensures
        r as int == abs_int(x as int),
{
    Signed::abs(&x)
}

/// Relies on num_integer::Roots::sqrt for i128, as for i64.
#[verifier::external_body]
fn sqrt_i128(x: i128) -> (r: i128)
    requires
        x >= 0,
    ensures
        is_floor_sqrt(r as int, x as int),
{
    Roots::sqrt(&x)
}

/// Relies on num_traits::Signed::abs for isize, as for i64.
#[verifier::external_body]
fn abs_isize(x: isize) -> (r: isize)
    requires
        x != isize::MIN,
    ensures
        r as int == abs_int(x as int),
{
    Signed::abs(&x)
}

/// Relies on num_integer::Roots::sqrt for isize, as for i64.
#[verifier::external_body]
fn sqrt_isize(x: isize) -> (r: isize)
    requires
        x >= 0,
    ensures
        is_floor_sqrt(r as int, x as int),
{
    Roots::sqrt(&x)
}

/// Relies on num_integer::Roots::sqrt for usize: the truncated square root,
/// `r² <= n < (r+1)²`.
#[verifier::external_body]
pub(crate) fn sqrt_usize(n: usize) -> (r: usize)
    ensures
        is_floor_sqrt(r as int, n as int),
{
    Roots::sqrt(&n)
}

impl FieldBound for i64 {
    open spec fn val(&self) -> int {
        *self as int
    }

    open spec fn fits(x: int) -> bool {
        i64::MIN <= x <= i64::MAX
    }

    proof fn lemma_val_fits(x: Self) {
    }

    proof fn lemma_fits_between(lo: int, x: int, hi: int) {
    }

    fn zero() -> (r: Self) {
        0
    }

    fn plus(&self, o: &Self) -> (r: Self) {
        *self + *o
    }

    fn minus(&self, o: &Self) -> (r: Self) {
        *self - *o
    }

    fn times(&self, o: &Self) -> (r: Self) {
        *self * *o
    }

    fn quot(&self, o: &Self) -> (r: Self) {
        match self.checked_div(*o) {
            Some(q) => q,
            None => 0,
        }
    }

    fn negate(&self) -> (r: Self) {
        -*self
    }

    fn less_than(&self, o: &Self) -> (r: bool) {
        *self < *o
    }

    fn abs(&self) -> (r: Self) {
        abs_i64(*self)
    }

    fn sqrt(&self) -> (r: Self) {
        sqrt_i64(*self)
    }

    fn is_zero(&self) -> (r: bool) {
        *self == 0
    }
}

impl FieldBound for i32 {
    open spec fn val(&self) -> int {
        *self as int
    }

    open spec fn fits(x: int) -> bool {
        i32::MIN <= x <= i32::MAX
    }

    proof fn lemma_val_fits(x: Self) {
    }

    proof fn lemma_fits_between(lo: int, x: int, hi: int) {
    }

    fn zero() -> (r: Self) {
        0
    }

    fn plus(&self, o: &Self) -> (r: Self) {
        *self + *o
    }

    fn minus(&self, o: &Self) -> (r: Self) {
        *self - *o
    }

    fn times(&self, o: &Self) -> (r: Self) {
        *self * *o
    }

    fn quot(&self, o: &Self) -> (r: Self) {
        match self.checked_div(*o) {
            Some(q) => q,
            None => 0,
        }
    }

    fn negate(&self) -> (r: Self) {
        -*self
    }

    fn less_than(&self, o: &Self) -> (r: bool) {
        *self < *o
    }

    fn abs(&self) -> (r: Self) {
        abs_i32(*self)
    }

    fn sqrt(&self) -> (r: Self) {
        sqrt_i32(*self)
    }

    fn is_zero(&self) -> (r: bool) {
        *self == 0
    }
}

impl FieldBound for i8 {
    open spec fn val(&self) -> int {
        *self as int
    }

    open spec fn fits(x: int) -> bool {
        i8::MIN <= x <= i8::MAX
    }

    proof fn lemma_val_fits(x: Self) {
    }

    proof fn lemma_fits_between(lo: int, x: int, hi: int) {
    }

    fn zero() -> (r: Self) {
        0
    }

    fn plus(&self, o: &Self) -> (r: Self) {
        *self + *o
    }

    fn minus(&self, o: &Self) -> (r: Self) {
        *self - *o
    }

    fn times(&self, o: &Self) -> (r: Self) {
        *self * *o
    }

    fn quot(&self, o: &Self) -> (r: Self) {
        match self.checked_div(*o) {
            Some(q) => q,
            None => 0,
        }
    }

    fn negate(&self) -> (r: Self) {
        -*self
    }

    fn less_than(&self, o: &Self) -> (r: bool) {
        *self < *o
    }

    fn abs(&self) -> (r: Self) {
        abs_i8(*self)
    }

    fn sqrt(&self) -> (r: Self) {
        sqrt_i8(*self)
    }

    fn is_zero(&self) -> (r: bool) {
        *self == 0
    }
}

impl FieldBound for i16 {
    open spec fn val(&self) -> int {
        *self as int
    }

    open spec fn fits(x: int) -> bool {
        i16::MIN <= x <= i16::MAX
    }

    proof fn lemma_val_fits(x: Self) {
    }

    proof fn lemma_fits_between(lo: int, x: int, hi: int) {
    }

    fn zero() -> (r: Self) {
        0
    }

    fn plus(&self, o: &Self) -> (r: Self) {
        *self + *o
    }

    fn minus(&self, o: &Self) -> (r: Self) {
        *self - *o
    }

    fn times(&self, o: &Self) -> (r: Self) {
        *self * *o
    }

    fn quot(&self, o: &Self) -> (r: Self) {
        match self.checked_div(*o) {
            Some(q) => q,
            None => 0,
        }
    }

    fn negate(&self) -> (r: Self) {
        -*self
    }

    fn less_than(&self, o: &Self) -> (r: bool) {
        *self < *o
    }

    fn abs(&self) -> (r: Self) {
        abs_i16(*self)
    }

    fn sqrt(&self) -> (r: Self) {
        sqrt_i16(*self)
    }

    fn is_zero(&self) -> (r: bool) {
        *self == 0
    }
}

impl FieldBound for i128 {
    open spec fn val(&self) -> int {
        *self as int
    }

    open spec fn fits(x: int) -> bool {
        i128::MIN <= x <= i128::MAX
    }

    proof fn lemma_val_fits(x: Self) {
    }

    proof fn lemma_fits_between(lo: int, x: int, hi: int) {
    }

    fn zero() -> (r: Self) {
        0
    }

    fn plus(&self, o: &Self) -> (r: Self) {
        *self + *o
    }

    fn minus(&self, o: &Self) -> (r: Self) {
        *self - *o
    }

    fn times(&self, o: &Self) -> (r: Self) {
        *self * *o
    }

    fn quot(&self, o: &Self) -> (r: Self) {
        match self.checked_div(*o) {
            Some(q) => q,
            None => 0,
        }
    }

    fn negate(&self) -> (r: Self) {
        -*self
    }

    fn less_than(&self, o: &Self) -> (r: bool) {
        *self < *o
    }

    fn abs(&self) -> (r: Self) {
        abs_i128(*self)
    }

    fn sqrt(&self) -> (r: Self) {
        sqrt_i128(*self)
    }

    fn is_zero(&self) -> (r: bool) {
        *self == 0
    }
}

impl FieldBound for isize {
    open spec fn val(&self) -> int {
        *self as int
    }

    open spec fn fits(x: int) -> bool {
        isize::MIN <= x <= isize::MAX
    }

    proof fn lemma_val_fits(x: Self) {
    }

    proof fn lemma_fits_between(lo: int, x: int, hi: int) {
    }

    fn zero() -> (r: Self) {
        0
    }

    fn plus(&self, o: &Self) -> (r: Self) {
        *self + *o
    }

    fn minus(&self, o: &Self) -> (r: Self) {
        *self - *o
    }

    fn times(&self, o: &Self) -> (r: Self) {
        *self * *o
    }

    fn quot(&self, o: &Self) -> (r: Self) {
        match self.checked_div(*o) {
            Some(q) => q,
            None => 0,
        }
    }

    fn negate(&self) -> (r: Self) {
        -*self
    }

    fn less_than(&self, o: &Self) -> (r: bool) {
        *self < *o
    }

    fn abs(&self) -> (r: Self) {
        abs_isize(*self)
    }

    fn sqrt(&self) -> (r: Self) {
        sqrt_isize(*self)
    }

    fn is_zero(&self) -> (r: bool) {
        *self == 0
    }
}

} // verus!
