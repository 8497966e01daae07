//! Why a source unit could not be turned into a record.
use vstd::prelude::*;

verus! {

/// What went wrong, with the 1-based number of the offending line and, for a
/// dangling reference, the id that names nothing.
#[derive(Clone, Debug, PartialEq, Eq)]
pub enum ParseError {
    /// The unit ends before the line that holds a required field.
    MissingLine { line: usize },
    /// The team line names none of the seven teams.
    InvalidTeam { line: usize },
    /// The key of a `key value` line is not known.
    InvalidKey { line: usize },
    /// A jinx has no reason after its target id.
    InvalidJinx { line: usize },
    /// A reminder count is not an integer.
    InvalidCount { line: usize },
    /// A wake line lacks a part, or names an unknown night or relation.
    InvalidWakes { line: usize },
    /// A wake line names a character `id` that is not known.
    UnknownReference { line: usize, id: String },
    /// A script line names a character `id` that is not known.
    UnknownCharacter { line: usize, id: String },
    /// The character `required_by` requires a character `id` that is not
    /// known.
    MissingRequirement { id: String, required_by: String },
}

pub enum ParseErrorView {
    MissingLine { line: usize },
    InvalidTeam { line: usize },
    InvalidKey { line: usize },
    InvalidJinx { line: usize },
    InvalidCount { line: usize },
    InvalidWakes { line: usize },
    UnknownReference { line: usize, id: Seq<char> },
    UnknownCharacter { line: usize, id: Seq<char> },
    MissingRequirement { id: Seq<char>, required_by: Seq<char> },
}

impl View for ParseError {
    type V = ParseErrorView;

    open spec fn view(&self) -> ParseErrorView {
        match self {
            ParseError::MissingLine { line } => ParseErrorView::MissingLine { line: *line },
            ParseError::InvalidTeam { line } => ParseErrorView::InvalidTeam { line: *line },
            ParseError::InvalidKey { line } => ParseErrorView::InvalidKey { line: *line },
            ParseError::InvalidJinx { line } => ParseErrorView::InvalidJinx { line: *line },
            ParseError::InvalidCount { line } => ParseErrorView::InvalidCount { line: *line },
            ParseError::InvalidWakes { line } => ParseErrorView::InvalidWakes { line: *line },
            ParseError::UnknownReference { line, id } => ParseErrorView::UnknownReference {
                line: *line,
                id: id@,
            },
            ParseError::UnknownCharacter { line, id } => ParseErrorView::UnknownCharacter {
                line: *line,
                id: id@,
            },
            ParseError::MissingRequirement { id, required_by } => ParseErrorView::MissingRequirement {
                id: id@,
                required_by: required_by@,
            },
        }
    }
}

/// A parse error together with the name of the unit it comes from.
#[derive(Clone, Debug, PartialEq, Eq)]
pub struct SourceError {
    pub unit: String,
    pub error: ParseError,
}

impl SourceError {
    /// `error`, in the unit named `unit`.
    pub fn new(unit: &str, error: ParseError) -> (r: SourceError)
        ensures
            r.unit@ == unit@,
            r.error == error,
    {
        SourceError { unit: crate::text::string_of(crate::text::to_chars(unit).as_slice()), error }
    }
}

} // verus!
