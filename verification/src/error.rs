//! The error that every stage of reading reports.

use vstd::prelude::*;
use vstd::string::*;

verus! {

/// The five families of failure.
#[derive(Debug, Clone, Copy, PartialEq, Eq, Structural)]
pub enum ErrorCategory {
    /// The document lacks a part that reading depends on.
    Structure,
    /// A word of a data line is no number where a number is due.
    MalformedField,
    /// A code or a section indicator is outside the known set.
    UnknownVocabulary,
    /// The section is known, and reading it is not provided.
    UnsupportedSection,
    /// A name is defined twice, or used and never defined.
    ReferentialIntegrity,
}

/// What went wrong. The text that the error is about, where a kind names
/// one, is the `subject` of the [`ParseError`] that carries the kind.
#[derive(Debug, Clone, Copy, PartialEq, Eq, Structural)]
pub enum ErrorKind {
    /// No line of the document starts with the name header.
    MissingName,
    /// The line found for the name header does not start with `NAME`.
    InvalidName,
    /// The row section holds no line.
    EmptyRows,
    /// The first line of the row section does not start with white space, a
    /// type code and white space. Subject: that line.
    NoRowWidth,
    /// A section of data lines comes before any row section has fixed the
    /// row width. Subject: the section's indicator.
    WidthUnset,
    /// A data line is shorter than the row width. Subject: the line.
    ShortLine,
    /// The word at this field position (3 or 5) is no number. Subject: the
    /// word.
    MalformedField(u8),
    /// Subject: the code.
    UnknownRowType,
    /// Subject: the code.
    UnknownColumnType,
    /// Subject: the code.
    UnknownBoundType,
    /// Subject: the indicator.
    UnknownIndicator,
    /// Subject: the indicator.
    UnsupportedSection,
    /// Two rows share a name. Subject: the name.
    DuplicateRow,
    /// Two columns share a name. Subject: the name.
    DuplicateColumn,
    /// A matrix entry names a row that is not defined. Subject: the name.
    EntryUndefinedRow,
    /// A matrix entry names a column that is not defined. Subject: the name.
    EntryUndefinedColumn,
    /// A right-hand side names a row that is not defined. Subject: the name.
    RhsUndefinedRow,
    /// A bound names a column that is not defined. Subject: the name.
    BoundUndefinedColumn,
    /// A quadratic term names a column that is not defined. Subject: the
    /// name.
    QuadraticUndefinedColumn,
}

impl ErrorKind {
    /// The family that the kind belongs to.
    pub open spec fn category_of(self) -> ErrorCategory {
        match self {
            ErrorKind::MissingName
            | ErrorKind::InvalidName
            | ErrorKind::EmptyRows
            | ErrorKind::NoRowWidth
            | ErrorKind::WidthUnset
            | ErrorKind::ShortLine => ErrorCategory::Structure,
            ErrorKind::MalformedField(_) => ErrorCategory::MalformedField,
            ErrorKind::UnknownRowType
            | ErrorKind::UnknownColumnType
            | ErrorKind::UnknownBoundType
            | ErrorKind::UnknownIndicator => ErrorCategory::UnknownVocabulary,
            ErrorKind::UnsupportedSection => ErrorCategory::UnsupportedSection,
            ErrorKind::DuplicateRow
            | ErrorKind::DuplicateColumn
            | ErrorKind::EntryUndefinedRow
            | ErrorKind::EntryUndefinedColumn
            | ErrorKind::RhsUndefinedRow
            | ErrorKind::BoundUndefinedColumn
            | ErrorKind::QuadraticUndefinedColumn => ErrorCategory::ReferentialIntegrity,
        }
    }

    /// The words that open the message of an error of this kind.
    pub open spec fn lead_of(self) -> Seq<char> {
        match self {
            ErrorKind::MissingName => "Failed to find NAME line in input"@,
            ErrorKind::InvalidName => "Invalid Sif format: NAME section missing"@,
            ErrorKind::EmptyRows => "ROWS section is empty"@,
            ErrorKind::NoRowWidth => "Failed to get separator from ROWS section: "@,
            ErrorKind::WidthUnset => "Separator not set before parsing section: "@,
            ErrorKind::ShortLine => "Line is shorter than the separator: "@,
            ErrorKind::MalformedField(3) => "Failed to parse field 3: "@,
            ErrorKind::MalformedField(5) => "Failed to parse field 5: "@,
            ErrorKind::MalformedField(_) => "Failed to parse field: "@,
            ErrorKind::UnknownRowType => "Unknown row type: "@,
            ErrorKind::UnknownColumnType => "Unknown column type: "@,
            ErrorKind::UnknownBoundType => "Unknown bound type: "@,
            ErrorKind::UnknownIndicator => "Unknown indicator: "@,
            ErrorKind::UnsupportedSection => "Section is not supported in this version: "@,
            ErrorKind::DuplicateRow => "Duplicate row names found: "@,
            ErrorKind::DuplicateColumn => "Duplicate column names found: "@,
            ErrorKind::EntryUndefinedRow => "Entry references undefined row: "@,
            ErrorKind::EntryUndefinedColumn => "Entry references undefined column: "@,
            ErrorKind::RhsUndefinedRow => "RHS entry references undefined row: "@,
            ErrorKind::BoundUndefinedColumn => "Bound entry references undefined column: "@,
            ErrorKind::QuadraticUndefinedColumn => "Quadratic term references undefined column: "@,
        }
    }

    /// The family that the kind belongs to.
    pub fn category(self) -> (c: ErrorCategory)
        ensures
            c == self.category_of(),
    {
        match self {
            ErrorKind::MissingName
            | ErrorKind::InvalidName
            | ErrorKind::EmptyRows
            | ErrorKind::NoRowWidth
            | ErrorKind::WidthUnset
            | ErrorKind::ShortLine => ErrorCategory::Structure,
            ErrorKind::MalformedField(_) => ErrorCategory::MalformedField,
            ErrorKind::UnknownRowType
            | ErrorKind::UnknownColumnType
            | ErrorKind::UnknownBoundType
            | ErrorKind::UnknownIndicator => ErrorCategory::UnknownVocabulary,
            ErrorKind::UnsupportedSection => ErrorCategory::UnsupportedSection,
            ErrorKind::DuplicateRow
            | ErrorKind::DuplicateColumn
            | ErrorKind::EntryUndefinedRow
            | ErrorKind::EntryUndefinedColumn
            | ErrorKind::RhsUndefinedRow
            | ErrorKind::BoundUndefinedColumn
            | ErrorKind::QuadraticUndefinedColumn => ErrorCategory::ReferentialIntegrity,
        }
    }

    /// The words that open the message of an error of this kind.
    pub fn lead(self) -> (s: &'static str)
        ensures
            s@ == self.lead_of(),
    {
        match self {
            ErrorKind::MissingName => "Failed to find NAME line in input",
            ErrorKind::InvalidName => "Invalid Sif format: NAME section missing",
            ErrorKind::EmptyRows => "ROWS section is empty",
            ErrorKind::NoRowWidth => "Failed to get separator from ROWS section: ",
            ErrorKind::WidthUnset => "Separator not set before parsing section: ",
            ErrorKind::ShortLine => "Line is shorter than the separator: ",
            ErrorKind::MalformedField(3) => "Failed to parse field 3: ",
            ErrorKind::MalformedField(5) => "Failed to parse field 5: ",
            ErrorKind::MalformedField(_) => "Failed to parse field: ",
            ErrorKind::UnknownRowType => "Unknown row type: ",
            ErrorKind::UnknownColumnType => "Unknown column type: ",
            ErrorKind::UnknownBoundType => "Unknown bound type: ",
            ErrorKind::UnknownIndicator => "Unknown indicator: ",
            ErrorKind::UnsupportedSection => "Section is not supported in this version: ",
            ErrorKind::DuplicateRow => "Duplicate row names found: ",
            ErrorKind::DuplicateColumn => "Duplicate column names found: ",
            ErrorKind::EntryUndefinedRow => "Entry references undefined row: ",
            ErrorKind::EntryUndefinedColumn => "Entry references undefined column: ",
            ErrorKind::RhsUndefinedRow => "RHS entry references undefined row: ",
            ErrorKind::BoundUndefinedColumn => "Bound entry references undefined column: ",
            ErrorKind::QuadraticUndefinedColumn => "Quadratic term references undefined column: ",
        }
    }
}

/// A failure as contracts speak of it: its kind and the text it concerns.
pub ghost struct Failure {
    pub kind: ErrorKind,
    pub subject: Seq<char>,
}

/// The failure of the given kind about the given text.
pub open spec fn failure(kind: ErrorKind, subject: Seq<char>) -> Failure {
    Failure { kind, subject }
}

/// Error returned when a document cannot be read.
#[derive(Debug, Clone, PartialEq, Eq)]
pub struct ParseError {
    /// What went wrong.
    pub kind: ErrorKind,
    /// The fragment of the document that the error is about; empty where the
    /// kind names none.
    pub subject: String,
}

impl View for ParseError {
    type V = Failure;

    open spec fn view(&self) -> Failure {
        Failure { kind: self.kind, subject: self.subject@ }
    }
}

impl ParseError {
    /// The error of the given kind about `subject`.
    pub fn new(kind: ErrorKind, subject: &str) -> (e: ParseError)
        ensures
            e@ == failure(kind, subject@),
    {
        ParseError { kind, subject: subject.to_owned() }
    }

    /// The error of the given kind that is about no fragment.
    pub fn bare(kind: ErrorKind) -> (e: ParseError)
        ensures
            e@ == failure(kind, Seq::empty()),
    {
        ParseError { kind, subject: String::new() }
    }

    /// The family of the error.
    pub fn category(&self) -> (c: ErrorCategory)
        ensures
            c == self@.kind.category_of(),
    {
        self.kind.category()
    }

    /// The message: the kind's opening words, then the subject.
    pub fn message(&self) -> (m: String)
        ensures
            m@ == self@.kind.lead_of() + self@.subject,
    {
        let mut m = self.kind.lead().to_owned();
        m.append(self.subject.as_str());
        m
    }

    /// The message, as [`ParseError::message`] gives it.
    pub fn to_string(&self) -> (m: String)
        ensures
            m@ == self@.kind.lead_of() + self@.subject,
    {
        self.message()
    }
}

} // verus!
