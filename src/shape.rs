//! Shapes of vectors and matrices, and the errors that report a mismatch.
use vstd::prelude::*;

verus! {

/// The shape of a vector: its length.
#[derive(Debug, Clone, Copy, PartialEq, Eq, Structural)]
pub struct D1 {
    pub length: usize,
}

/// The shape of a matrix: its number of rows and of columns.
#[derive(Debug, Clone, Copy, PartialEq, Eq, Structural)]
pub struct D2 {
    pub rows: usize,
    pub cols: usize,
}

/// The shape of a vector or of a matrix.
#[derive(Debug, Clone, Copy, PartialEq, Eq, Structural)]
pub enum Dimension {
    D1(D1),
    D2(D2),
}

impl Dimension {
    /// The vector shape, if this is one.
    pub fn d1(self) -> (r: Option<D1>)
        ensures
            r == (match self {
                Dimension::D1(d) => Some(d),
                Dimension::D2(_) => None,
            }),
    {
        match self {
            Dimension::D1(d) => Some(d),
            Dimension::D2(_) => None,
        }
    }

    /// The matrix shape, if this is one.
    pub fn d2(self) -> (r: Option<D2>)
        ensures
            r == (match self {
                Dimension::D1(_) => None,
                Dimension::D2(d) => Some(d),
            }),
    {
        match self {
            Dimension::D1(_) => None,
            Dimension::D2(d) => Some(d),
        }
    }

    /// Whether both are matrix shapes and each is the other transposed.
    pub fn inv_eq(&self, other: &Self) -> (r: bool)
        ensures
            r == (match (*self, *other) {
                (Dimension::D2(a), Dimension::D2(b)) => a.rows == b.cols && a.cols == b.rows,
                _ => false,
            }),
    {
        match self {
            Dimension::D1(_) => false,
            Dimension::D2(d2_self) => match other {
                Dimension::D1(_) => false,
                Dimension::D2(d2_other) => d2_self.rows == d2_other.cols && d2_self.cols
                    == d2_other.rows,
            },
        }
    }
}

/// Two operands whose shapes (or sizes) do not agree: the shape that was
/// expected and the one that was received.
#[derive(Debug, Clone, Copy, PartialEq, Eq, Structural)]
pub struct IncompatibleError {
    pub expected: Dimension,
    pub found: Dimension,
}

impl IncompatibleError {
    pub fn new(expected: Dimension, found: Dimension) -> (r: Self)
        ensures
            r == (IncompatibleError { expected, found }),
    {
        IncompatibleError { expected, found }
    }
}

/// Why an operation on vectors or matrices was refused.
#[derive(Debug, Clone, Copy, PartialEq, Eq, Structural)]
pub enum AlgebraError {
    /// The operands' shapes disagree.
    ShapeMismatch(IncompatibleError),
    /// A square-only operation met a matrix of this shape.
    NotSquare(D2),
    /// The operation needs at least one element.
    EmptyOperand,
    /// A fixed-length operation met a vector of this length.
    DimensionError(usize),
    /// The initial data cannot form a matrix (not a perfect square, or rows
    /// of different lengths).
    ConstructionError,
    /// A value has no defined result here (a zero norm in a quotient).
    DomainError,
}

} // verus!
