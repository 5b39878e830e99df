//! Error values of the engine, each with the view that contracts speak of.

use vstd::prelude::*;

verus! {

/// What went wrong while reading a descriptor document.
#[derive(Clone, Copy, Debug, PartialEq, Eq, Structural)]
pub enum ParseErrorKind {
    /// The XML reader rejected the document.
    Syntax,
    /// An entity or character reference could not be resolved.
    Reference,
    /// A closing tag without an element to close.
    UnexpectedClose,
    /// A closing tag that names another element than the open one.
    MismatchedClose,
    /// The document ended inside an element.
    Unclosed,
    /// The document holds no element at all.
    MissingRoot,
    /// A second element after the root element was closed.
    ExtraRoot,
    /// A required element is absent.
    MissingField,
    /// An element that names a field stands twice.
    RepeatedField,
    /// An element holds a value that its field cannot take.
    InvalidField,
}

/// A failure to read a descriptor document; `subject` names the element, reference or path at
/// fault, and is empty where the failure has none.
#[derive(Clone, Debug, PartialEq, Eq)]
pub struct ParseError {
    pub kind: ParseErrorKind,
    pub subject: String,
}

/// The view of a [`ParseError`].
pub struct ParseFault {
    pub kind: ParseErrorKind,
    pub subject: Seq<char>,
}

impl View for ParseError {
    type V = ParseFault;

    open spec fn view(&self) -> ParseFault {
        ParseFault { kind: self.kind, subject: self.subject@ }
    }
}

impl ParseError {
    /// An error of the given kind about `subject`.
    pub fn about(kind: ParseErrorKind, subject: &str) -> (e: ParseError)
        ensures
            e@ == (ParseFault { kind, subject: subject@ }),
    {
        ParseError { kind, subject: subject.to_owned() }
    }

    /// An error of the given kind that has no subject.
    pub fn bare(kind: ParseErrorKind) -> (e: ParseError)
        ensures
            e@ == fault(kind),
    {
        ParseError { kind, subject: String::new() }
    }
}

/// The fault of the given kind that has no subject.
pub open spec fn fault(kind: ParseErrorKind) -> ParseFault {
    ParseFault { kind, subject: Seq::empty() }
}

/// The fault of the given kind about `subject`.
pub open spec fn fault_about(kind: ParseErrorKind, subject: Seq<char>) -> ParseFault {
    ParseFault { kind, subject }
}

} // verus!
