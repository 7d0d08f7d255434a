//! What can go wrong while a value is built.
use vstd::prelude::*;

use crate::path::{Path, PathView};
use crate::shape::ShapeRef;

verus! {

/// Why a conversion failed.
#[derive(Debug, PartialEq)]
pub enum TryFromError {
    /// The source type is not accepted.
    UnsupportedSourceType,
    /// The conversion itself failed.
    Generic(String),
}

/// A message: a fixed one, or one that a hook reported.
#[derive(Debug, PartialEq)]
pub enum Message {
    Fixed(&'static str),
    Reported(String),
}

/// What went wrong.
#[derive(Debug, PartialEq)]
#[allow(inconsistent_fields)]
pub enum ReflectErrorKind {
    /// The operation cannot be done on this shape, or not now.
    OperationFailed { shape: ShapeRef, operation: &'static str },
    /// The builder is in a state that it should not be in.
    InvariantViolation { invariant: &'static str },
    /// A size is needed, and the type has none.
    Unsized { shape: ShapeRef, operation: &'static str },
    /// The value is not fully initialized.
    UninitializedValue { shape: ShapeRef },
    /// A field is missing.
    UninitializedField { shape: ShapeRef, field_name: &'static str },
    /// A field asks for a default that its type does not have.
    DefaultAttrButNoDefaultImpl { shape: ShapeRef },
    /// The shape is of another kind.
    WasNotA { expected: &'static str, actual: ShapeRef },
    /// A conversion failed.
    TryFromError { src_shape: ShapeRef, dst_shape: ShapeRef, inner: TryFromError },
    /// A custom conversion failed.
    CustomDeserializationError { message: Message, src_shape: ShapeRef, dst_shape: ShapeRef },
    /// A validator refused a field.
    ValidationFailed { shape: ShapeRef, field_name: &'static str, message: String },
}

/// What went wrong, and where in the value.
#[derive(Debug)]
pub struct ReflectError {
    pub kind: ReflectErrorKind,
    pub path: Path,
}

/// An error as the contracts see it.
#[verifier::ext_equal]
pub struct ReflectErrorView {
    pub kind: ReflectErrorKind,
    pub path: PathView,
}

impl View for ReflectError {
    type V = ReflectErrorView;

    open spec fn view(&self) -> ReflectErrorView {
        ReflectErrorView { kind: self.kind, path: self.path@ }
    }
}

impl ReflectError {
    /// Puts an error together.
    pub fn new(kind: ReflectErrorKind, path: Path) -> (e: ReflectError)
        ensures
            e@ == (ReflectErrorView { kind, path: path@ }),
    {
        ReflectError { kind, path }
    }
}

} // verus!
