//! What can go wrong during evaluation.

use crate::ast::{Kind, Span};
use vstd::prelude::*;

verus! {

/// The built-in operators.
#[derive(Clone, Copy, Debug, PartialEq, Eq, Structural)]
pub enum Operator {
    Canvas,
    ImgLoad,
    ImgRender,
    ImgResize,
    ImgMove,
    ImgMix,
    EffBlur,
    Def,
    Thread,
    Plus,
    Minus,
    Times,
    Divide,
    Modulo,
}

/// The operands of the built-in operators.
#[derive(Clone, Copy, Debug, PartialEq, Eq, Structural)]
pub enum Argument {
    Width,
    Height,
    Path,
    Image,
    Method,
    X,
    Y,
    Bottom,
    Top,
    Mode,
    Radius,
    Name,
    Value,
    First,
    Left,
    Right,
}

/// An error of evaluation.
#[derive(Debug, PartialEq, Eq)]
pub enum EvalError {
    /// A symbol that no definition has bound.
    UndefinedSymbol(String),
    /// An empty list in the place of an application.
    EmptyApplication,
    /// An operator without one of the operands it needs.
    MissingArgument { operator: Operator, argument: Argument },
    /// An operand of the wrong kind.
    TypeMismatch { expected: Kind, actual: Kind, argument: Argument },
    /// A head of an application that names no operator.
    UnknownOperator(String),
    /// A symbol that names no method or mode of the operator.
    UnknownMethod(String),
    /// A rendering before any canvas was made.
    NoCanvas,
    DivisionByZero,
    NegativeBlurRadius,
    /// An empty list as a step of a pipeline.
    EmptyPipelineFunction,
    /// A step of a pipeline that is neither a symbol nor a list.
    UnsupportedPipelineStep,
    /// A file that could not be read as an image.
    IOError { path: String, cause: String },
    /// A node that has no value: a vector, or a quote of anything but a symbol.
    Unsupported(Kind),
    /// An image of a size that cannot be held in memory.
    ImageTooLarge,
    /// A file that the caller has not supplied.
    ImageNotSupplied(String),
    /// A blur of a radius for which the caller has supplied no kernel.
    KernelNotSupplied(usize),
}

/// What an error is, with sequences for strings.
pub enum ErrorModel {
    UndefinedSymbol(Seq<char>),
    EmptyApplication,
    MissingArgument { operator: Operator, argument: Argument },
    TypeMismatch { expected: Kind, actual: Kind, argument: Argument },
    UnknownOperator(Seq<char>),
    UnknownMethod(Seq<char>),
    NoCanvas,
    DivisionByZero,
    NegativeBlurRadius,
    EmptyPipelineFunction,
    UnsupportedPipelineStep,
    IOError { path: Seq<char>, cause: Seq<char> },
    Unsupported(Kind),
    ImageTooLarge,
    ImageNotSupplied(Seq<char>),
    KernelNotSupplied(nat),
}

impl View for EvalError {
    type V = ErrorModel;

    open spec fn view(&self) -> ErrorModel {
        match *self {
            EvalError::UndefinedSymbol(s) => ErrorModel::UndefinedSymbol(s@),
            EvalError::EmptyApplication => ErrorModel::EmptyApplication,
            EvalError::MissingArgument { operator, argument } => ErrorModel::MissingArgument {
                operator,
                argument,
            },
            EvalError::TypeMismatch { expected, actual, argument } => ErrorModel::TypeMismatch {
                expected,
                actual,
                argument,
            },
            EvalError::UnknownOperator(s) => ErrorModel::UnknownOperator(s@),
            EvalError::UnknownMethod(s) => ErrorModel::UnknownMethod(s@),
            EvalError::NoCanvas => ErrorModel::NoCanvas,
            EvalError::DivisionByZero => ErrorModel::DivisionByZero,
            EvalError::NegativeBlurRadius => ErrorModel::NegativeBlurRadius,
            EvalError::EmptyPipelineFunction => ErrorModel::EmptyPipelineFunction,
            EvalError::UnsupportedPipelineStep => ErrorModel::UnsupportedPipelineStep,
            EvalError::IOError { path, cause } => ErrorModel::IOError { path: path@, cause: cause@ },
            EvalError::Unsupported(k) => ErrorModel::Unsupported(k),
            EvalError::ImageTooLarge => ErrorModel::ImageTooLarge,
            EvalError::ImageNotSupplied(s) => ErrorModel::ImageNotSupplied(s@),
            EvalError::KernelNotSupplied(r) => ErrorModel::KernelNotSupplied(r as nat),
        }
    }
}

/// An error with the place of the node that was being evaluated.
#[derive(Debug, PartialEq, Eq)]
pub struct Failure {
    pub error: EvalError,
    pub span: Span,
}

/// What a failure is.
pub struct FailureModel {
    pub error: ErrorModel,
    pub span: Span,
}

impl View for Failure {
    type V = FailureModel;

    open spec fn view(&self) -> FailureModel {
        FailureModel { error: self.error@, span: self.span }
    }
}

} // verus!
