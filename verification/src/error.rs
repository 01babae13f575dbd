//! The error report of the command line: a kind, a message, and a position.
use vstd::prelude::*;
use crate::ast::ErrorCode;
use crate::chars::{decimal, push_decimal, push_str_chars};

verus! {

/// The kind of a reported error.
#[derive(Debug, Clone, Copy, PartialEq, Eq)]
pub enum ErrorKind {
    UnknownSection,
    InvalidSyntax,
    InvalidFormula,
    InvalidInvariant,
    UnknownVariable,
    UnknownOp,
    MissingMeta,
    MissingFormula,
    DuplicateMetaKey,
    IoError,
}

impl ErrorKind {
    /// The name of the kind.
    pub open spec fn spec_name(self) -> Seq<char> {
        match self {
            ErrorKind::UnknownSection => "UnknownSection"@,
            ErrorKind::InvalidSyntax => "InvalidSyntax"@,
            ErrorKind::InvalidFormula => "InvalidFormula"@,
            ErrorKind::InvalidInvariant => "InvalidInvariant"@,
            ErrorKind::UnknownVariable => "UnknownVariable"@,
            ErrorKind::UnknownOp => "UnknownOp"@,
            ErrorKind::MissingMeta => "MissingMeta"@,
            ErrorKind::MissingFormula => "MissingFormula"@,
            ErrorKind::DuplicateMetaKey => "DuplicateMetaKey"@,
            ErrorKind::IoError => "IoError"@,
        }
    }

    pub fn as_str(self) -> (s: &'static str)
        ensures
            s@ == self.spec_name(),
    {
        match self {
            ErrorKind::UnknownSection => "UnknownSection",
            ErrorKind::InvalidSyntax => "InvalidSyntax",
            ErrorKind::InvalidFormula => "InvalidFormula",
            ErrorKind::InvalidInvariant => "InvalidInvariant",
            ErrorKind::UnknownVariable => "UnknownVariable",
            ErrorKind::UnknownOp => "UnknownOp",
            ErrorKind::MissingMeta => "MissingMeta",
            ErrorKind::MissingFormula => "MissingFormula",
            ErrorKind::DuplicateMetaKey => "DuplicateMetaKey",
            ErrorKind::IoError => "IoError",
        }
    }

    /// The kind under which a compile error of `code` is reported.  Codes
    /// without a kind of their own (a repeated section, an entry in the wrong
    /// section, a missing pipeline) are reported as invalid syntax.
    pub open spec fn spec_from_code(code: ErrorCode) -> ErrorKind {
        match code {
            ErrorCode::UnknownSection => ErrorKind::UnknownSection,
            ErrorCode::InvalidSyntax => ErrorKind::InvalidSyntax,
            ErrorCode::DuplicateSection => ErrorKind::InvalidSyntax,
            ErrorCode::UnknownField => ErrorKind::InvalidSyntax,
            ErrorCode::InvalidFormula => ErrorKind::InvalidFormula,
            ErrorCode::InvalidInvariant => ErrorKind::InvalidInvariant,
            ErrorCode::UnknownVariable => ErrorKind::UnknownVariable,
            ErrorCode::UnknownOp => ErrorKind::UnknownOp,
            ErrorCode::MissingMeta => ErrorKind::MissingMeta,
            ErrorCode::EmptyFormula => ErrorKind::MissingFormula,
            ErrorCode::MissingPipeline => ErrorKind::InvalidSyntax,
            ErrorCode::DuplicateMetaKey => ErrorKind::DuplicateMetaKey,
        }
    }

    /// The name of the kind as an owned string.
    pub fn to_string(self) -> (s: String)
        ensures
            s@ == self.spec_name(),
    {
        String::from_str(self.as_str())
    }

    pub fn from_code(code: ErrorCode) -> (k: ErrorKind)
        ensures
            k == Self::spec_from_code(code),
    {
        match code {
            ErrorCode::UnknownSection => ErrorKind::UnknownSection,
            ErrorCode::InvalidSyntax => ErrorKind::InvalidSyntax,
            ErrorCode::DuplicateSection => ErrorKind::InvalidSyntax,
            ErrorCode::UnknownField => ErrorKind::InvalidSyntax,
            ErrorCode::InvalidFormula => ErrorKind::InvalidFormula,
            ErrorCode::InvalidInvariant => ErrorKind::InvalidInvariant,
            ErrorCode::UnknownVariable => ErrorKind::UnknownVariable,
            ErrorCode::UnknownOp => ErrorKind::UnknownOp,
            ErrorCode::MissingMeta => ErrorKind::MissingMeta,
            ErrorCode::EmptyFormula => ErrorKind::MissingFormula,
            ErrorCode::MissingPipeline => ErrorKind::InvalidSyntax,
            ErrorCode::DuplicateMetaKey => ErrorKind::DuplicateMetaKey,
        }
    }
}

/// A reported error: its kind, a message, the line (0 where there is none)
/// and, where known, the column.
#[derive(Debug, Clone, PartialEq, Eq)]
pub struct CompileError {
    pub kind: ErrorKind,
    pub message: String,
    pub line: usize,
    pub column: Option<usize>,
}

impl CompileError {
    pub fn new(kind: ErrorKind, message: &str, line: usize, column: Option<usize>) -> (e: Self)
        ensures
            e.kind == kind,
            e.message@ == message@,
            e.line == line,
            e.column == column,
    {
        CompileError { kind, message: String::from_str(message), line, column }
    }

    /// The report as one line of text: `Kind: message (line L, column C)`,
    /// or `Kind: message (line L)` where the column is not known.
    pub open spec fn spec_text(self) -> Seq<char> {
        self.kind.spec_name() + ": "@ + self.message@ + " (line "@ + decimal(self.line as nat)
            + match self.column {
            Some(c) => ", column "@ + decimal(c as nat),
            None => Seq::empty(),
        } + ")"@
    }

    pub fn to_string(&self) -> (s: String)
        ensures
            s@ == self.spec_text(),
    {
        let mut s = String::new();
        push_str_chars(&mut s, self.kind.as_str());
        push_str_chars(&mut s, ": ");
        push_str_chars(&mut s, self.message.as_str());
        push_str_chars(&mut s, " (line ");
        push_decimal(&mut s, self.line);
        match self.column {
            Some(c) => {
                push_str_chars(&mut s, ", column ");
                push_decimal(&mut s, c);
            },
            None => {},
        }
        push_str_chars(&mut s, ")");
        assert(s@ =~= self.spec_text());
        s
    }

    /// The report of a compile error: its kind by `ErrorKind::from_code`, its
    /// message, its line or 0, and no column.
    pub fn from_compile_error(err: &crate::ast::CompileError) -> (e: Self)
        ensures
            e.kind == ErrorKind::spec_from_code(err.code),
            e.message@ == err.message@,
            e.line == match err.line {
                Some(l) => l,
                None => 0,
            },
            e.column is None,
    {
        let line = match err.line {
            Some(l) => l,
            None => 0,
        };
        CompileError::new(ErrorKind::from_code(err.code), err.message.as_str(), line, None)
    }
}

} // verus!
