//! The errors that a conversion reports.

use vstd::prelude::*;
use vstd::string::StringExecFns;

verus! {

/// An error of a conversion. Every error ends the conversion; none is retried.
#[derive(Debug, PartialEq, Eq)]
pub enum CliError {
    /// The `csv` crate could not read or write a record.
    Csv(String),
    /// An input or output operation failed.
    Io(String),
    /// Any other failure, with its message.
    Other(String),
}

/// The result of a conversion.
pub type CliResult<T> = Result<T, CliError>;

/// The mathematical model of a [`CliError`].
pub enum CliErrorView {
    Csv(Seq<char>),
    Io(Seq<char>),
    Other(Seq<char>),
}

impl View for CliError {
    type V = CliErrorView;

    open spec fn view(&self) -> CliErrorView {
        match self {
            CliError::Csv(message) => CliErrorView::Csv(message@),
            CliError::Io(message) => CliErrorView::Io(message@),
            CliError::Other(message) => CliErrorView::Other(message@),
        }
    }
}

impl CliErrorView {
    /// The message that the error reports.
    pub open spec fn message(self) -> Seq<char> {
        match self {
            CliErrorView::Csv(message) => message,
            CliErrorView::Io(message) => message,
            CliErrorView::Other(message) => message,
        }
    }
}

impl CliError {
    /// The message that the error reports.
    pub fn message(&self) -> (r: String)
        ensures
            r@ == self@.message(),
    {
        match self {
            CliError::Csv(message) => message.clone(),
            CliError::Io(message) => message.clone(),
            CliError::Other(message) => message.clone(),
        }
    }

    /// The error `Other` with the given message.
    pub fn other(message: &str) -> (r: CliError)
        ensures
            r@ == CliErrorView::Other(message@),
    {
        CliError::Other(String::from_str(message))
    }
}

/// The text `prefix` followed by `text`.
pub fn prefixed(prefix: &str, text: &str) -> (r: String)
    ensures
        r@ == prefix@ + text@,
{
    let mut out = String::from_str(prefix);
    out.append(text);
    out
}

} // verus!
