//! Why an expansion is refused.

use vstd::prelude::*;
use vstd::string::*;

verus! {

/// A reason to refuse a definition. None of them is recoverable: the caller
/// reports it and produces no output.
#[derive(Clone, Debug, PartialEq, Eq)]
pub enum ExpansionError {
    /// The definition is neither a struct nor an enum.
    UnsupportedItem,
    /// A `serbia` or `serde` attribute whose arguments are not in meta form.
    MalformedAttribute,
    /// An argument whose name is a path of several segments.
    ExpectedIdent,
    /// A `serbia` argument that is neither a flag nor `key = value`.
    UnsupportedArgument,
    /// A flag that is none of `skip`, `skip_serializing`, `skip_deserializing`.
    UnknownFlag(String),
    /// A `key = value` argument whose key is not `bufsize`.
    UnknownOption(String),
    /// `bufsize = "text"` where the text is not an identifier.
    InvalidConstantName(String),
    /// An array length literal that is no number or does not fit in `usize`.
    InvalidLength(String),
}

pub enum ExpansionErrorView {
    UnsupportedItem,
    MalformedAttribute,
    ExpectedIdent,
    UnsupportedArgument,
    UnknownFlag(Seq<char>),
    UnknownOption(Seq<char>),
    InvalidConstantName(Seq<char>),
    InvalidLength(Seq<char>),
}

impl ExpansionErrorView {
    /// The text that describes the error.
    pub open spec fn message(self) -> Seq<char> {
        match self {
            ExpansionErrorView::UnsupportedItem => "serbia accepts only enums or structs"@,
            ExpansionErrorView::MalformedAttribute => "malformed attribute arguments"@,
            ExpansionErrorView::ExpectedIdent => "expected serbia argument to be an ident"@,
            ExpansionErrorView::UnsupportedArgument => "unsupported serbia argument"@,
            ExpansionErrorView::UnknownFlag(flag) => "unknown serbia flag: "@ + flag,
            ExpansionErrorView::UnknownOption(key) => "unknown serbia key-value option: "@ + key,
            ExpansionErrorView::InvalidConstantName(name) => "not the name of a constant: "@
                + name,
            ExpansionErrorView::InvalidLength(digits) => "unusable array length: "@ + digits,
        }
    }
}

impl View for ExpansionError {
    type V = ExpansionErrorView;

    open spec fn view(&self) -> ExpansionErrorView {
        match self {
            ExpansionError::UnsupportedItem => ExpansionErrorView::UnsupportedItem,
            ExpansionError::MalformedAttribute => ExpansionErrorView::MalformedAttribute,
            ExpansionError::ExpectedIdent => ExpansionErrorView::ExpectedIdent,
            ExpansionError::UnsupportedArgument => ExpansionErrorView::UnsupportedArgument,
            ExpansionError::UnknownFlag(flag) => ExpansionErrorView::UnknownFlag(flag@),
            ExpansionError::UnknownOption(key) => ExpansionErrorView::UnknownOption(key@),
            ExpansionError::InvalidConstantName(name) => ExpansionErrorView::InvalidConstantName(
                name@,
            ),
            ExpansionError::InvalidLength(digits) => ExpansionErrorView::InvalidLength(digits@),
        }
    }
}

impl ExpansionError {
    /// Describes the error.
    pub fn message(&self) -> (text: String)
        ensures
            text@ == self@.message(),
    {
        match self {
            ExpansionError::UnsupportedItem => String::from_str(
                "serbia accepts only enums or structs",
            ),
            ExpansionError::MalformedAttribute => String::from_str(
                "malformed attribute arguments",
            ),
            ExpansionError::ExpectedIdent => String::from_str(
                "expected serbia argument to be an ident",
            ),
            ExpansionError::UnsupportedArgument => String::from_str("unsupported serbia argument"),
            ExpansionError::UnknownFlag(flag) => String::from_str("unknown serbia flag: ").concat(
                flag.as_str(),
            ),
            ExpansionError::UnknownOption(key) => String::from_str(
                "unknown serbia key-value option: ",
            ).concat(key.as_str()),
            ExpansionError::InvalidConstantName(name) => String::from_str(
                "not the name of a constant: ",
            ).concat(name.as_str()),
            ExpansionError::InvalidLength(digits) => String::from_str(
                "unusable array length: ",
            ).concat(digits.as_str()),
        }
    }
}

} // verus!
