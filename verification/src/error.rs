//! The failures that the interpreter reports.
use vstd::prelude::*;
use vstd::string::StringExecFns;

verus! {

/// Everything that can go wrong while a statement is read, lexed, parsed or
/// evaluated.
#[derive(Debug, PartialEq, Eq)]
pub enum Error {
    CouldNotFlushOutput,
    CouldNotReadStdin,
    ImproperDimensions,
    InvalidOperands,
    InvalidOperator,
    InvalidValue,
    CouldNotParseNumeric,
    UnexpectedEof,
    CouldNotFindFunction,
    WrongNumberOfArgs,
    RequiresUnitMatrix,
    SquareMatrixRequired,
    ExpectedIdentifier,
    ExpectedCloseParen,
    DividedByZero,
    UndeclaredVariable(String),
    CouldNotReadFile(String),
    CouldNotWriteToFile,
    CouldNotDisplayPlot,
}

/// An error with its text payload, if any, taken as a sequence of characters.
pub enum ErrorView {
    CouldNotFlushOutput,
    CouldNotReadStdin,
    ImproperDimensions,
    InvalidOperands,
    InvalidOperator,
    InvalidValue,
    CouldNotParseNumeric,
    UnexpectedEof,
    CouldNotFindFunction,
    WrongNumberOfArgs,
    RequiresUnitMatrix,
    SquareMatrixRequired,
    ExpectedIdentifier,
    ExpectedCloseParen,
    DividedByZero,
    UndeclaredVariable(Seq<char>),
    CouldNotReadFile(Seq<char>),
    CouldNotWriteToFile,
    CouldNotDisplayPlot,
}

impl View for Error {
    type V = ErrorView;

    open spec fn view(&self) -> ErrorView {
        match self {
            Error::CouldNotFlushOutput => ErrorView::CouldNotFlushOutput,
            Error::CouldNotReadStdin => ErrorView::CouldNotReadStdin,
            Error::ImproperDimensions => ErrorView::ImproperDimensions,
            Error::InvalidOperands => ErrorView::InvalidOperands,
            Error::InvalidOperator => ErrorView::InvalidOperator,
            Error::InvalidValue => ErrorView::InvalidValue,
            Error::CouldNotParseNumeric => ErrorView::CouldNotParseNumeric,
            Error::UnexpectedEof => ErrorView::UnexpectedEof,
            Error::CouldNotFindFunction => ErrorView::CouldNotFindFunction,
            Error::WrongNumberOfArgs => ErrorView::WrongNumberOfArgs,
            Error::RequiresUnitMatrix => ErrorView::RequiresUnitMatrix,
            Error::SquareMatrixRequired => ErrorView::SquareMatrixRequired,
            Error::ExpectedIdentifier => ErrorView::ExpectedIdentifier,
            Error::ExpectedCloseParen => ErrorView::ExpectedCloseParen,
            Error::DividedByZero => ErrorView::DividedByZero,
            Error::UndeclaredVariable(s) => ErrorView::UndeclaredVariable(s@),
            Error::CouldNotReadFile(s) => ErrorView::CouldNotReadFile(s@),
            Error::CouldNotWriteToFile => ErrorView::CouldNotWriteToFile,
            Error::CouldNotDisplayPlot => ErrorView::CouldNotDisplayPlot,
        }
    }
}

/// The sentence that describes an error to the user.
pub open spec fn message_of(e: ErrorView) -> Seq<char> {
    match e {
        ErrorView::CouldNotFlushOutput => "could not flush stdout"@,
        ErrorView::CouldNotReadStdin => "could not read stdin"@,
        ErrorView::ImproperDimensions => "improper dimensions"@,
        ErrorView::InvalidOperands => "invalid binary operands"@,
        ErrorView::InvalidOperator => "invalid operator"@,
        ErrorView::InvalidValue => "at least one value in this matrix is not a numeric literal"@,
        ErrorView::CouldNotParseNumeric => "could not parse numeric input"@,
        ErrorView::UnexpectedEof => "unexpected token or end of token stream"@,
        ErrorView::CouldNotFindFunction => "could not find function in standard library"@,
        ErrorView::WrongNumberOfArgs => "wrong number of arguments passed to function"@,
        ErrorView::RequiresUnitMatrix => "function requires a unit (1x1) matrix"@,
        ErrorView::SquareMatrixRequired => "function requires a square matrix"@,
        ErrorView::ExpectedIdentifier => "expected identifier"@,
        ErrorView::ExpectedCloseParen => "expected closing parenthesis"@,
        ErrorView::DividedByZero => "attempted to divide by zero"@,
        ErrorView::UndeclaredVariable(s) => "found undeclared variable "@ + s,
        ErrorView::CouldNotReadFile(s) => "could not read file "@ + s,
        ErrorView::CouldNotWriteToFile => "unable to export data to file"@,
        ErrorView::CouldNotDisplayPlot => "could not display plot in terminal"@,
    }
}

impl Error {
    /// The sentence that describes this error.
    pub fn message(&self) -> (text: String)
        ensures
            text@ == message_of(self@),
    {
        match self {
            Error::CouldNotFlushOutput => String::from_str("could not flush stdout"),
            Error::CouldNotReadStdin => String::from_str("could not read stdin"),
            Error::ImproperDimensions => String::from_str("improper dimensions"),
            Error::InvalidOperands => String::from_str("invalid binary operands"),
            Error::InvalidOperator => String::from_str("invalid operator"),
            Error::InvalidValue => String::from_str(
                "at least one value in this matrix is not a numeric literal",
            ),
            Error::CouldNotParseNumeric => String::from_str("could not parse numeric input"),
            Error::UnexpectedEof => String::from_str("unexpected token or end of token stream"),
            Error::CouldNotFindFunction => String::from_str(
                "could not find function in standard library",
            ),
            Error::WrongNumberOfArgs => String::from_str(
                "wrong number of arguments passed to function",
            ),
            Error::RequiresUnitMatrix => String::from_str("function requires a unit (1x1) matrix"),
            Error::SquareMatrixRequired => String::from_str("function requires a square matrix"),
            Error::ExpectedIdentifier => String::from_str("expected identifier"),
            Error::ExpectedCloseParen => String::from_str("expected closing parenthesis"),
            Error::DividedByZero => String::from_str("attempted to divide by zero"),
            Error::UndeclaredVariable(s) => String::from_str("found undeclared variable ").concat(
                s.as_str(),
            ),
            Error::CouldNotReadFile(s) => String::from_str("could not read file ").concat(
                s.as_str(),
            ),
            Error::CouldNotWriteToFile => String::from_str("unable to export data to file"),
            Error::CouldNotDisplayPlot => String::from_str("could not display plot in terminal"),
        }
    }
}

} // verus!
