//! The kinds of shape primitive, and which of them a transform can be
//! applied to.
use vstd::prelude::*;

verus! {

/// The kind of a shape primitive.
#[derive(Debug, Clone, Copy, PartialEq, Eq, Structural)]
pub enum ShapeKind {
    Circle,
    Rectangle,
}

/// Why an operation on a shape was refused.
#[derive(Debug, Clone, Copy, PartialEq, Eq, Structural)]
pub enum ShapeError {
    /// A rectangle is held as an axis-aligned position and size, which a
    /// rotation cannot keep; applying a transform to it is refused rather
    /// than approximated.
    UnsupportedTransform,
}

impl ShapeKind {
    /// Whether a transform can be applied to a shape of this kind: a circle
    /// yes, a rectangle no.
    pub fn check_transformable(&self) -> (r: Result<(), ShapeError>)
        ensures
            r is Ok <==> *self == ShapeKind::Circle,
            r is Err ==> r == Err::<(), ShapeError>(ShapeError::UnsupportedTransform),
    {
        match self {
            ShapeKind::Circle => Ok(()),
            ShapeKind::Rectangle => Err(ShapeError::UnsupportedTransform),
        }
    }
}

} // verus!
