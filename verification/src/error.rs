//! Toolkit error type. Markup errors carry `file:line:column` when a span is known.

use vstd::prelude::*;

use crate::text::{copy_string, dec_chars, lit, push_decimal, push_str};

verus! {

/// nativum error.
#[derive(Clone, Debug)]
pub enum Error {
    /// Parse or check diagnostic with source location.
    Located {
        /// 1-based line.
        line: usize,
        /// 1-based column.
        column: usize,
        /// Human-readable message. Teaching, not cryptic.
        message: String,
        /// Optional path.
        path: Option<String>,
    },
    /// Type or evaluation error without a span.
    Type(String),
    /// I/O.
    Io(String),
    /// App manifest or core.json.
    Config(String),
}

/// The mathematical value of an [`Error`]: its strings as character sequences.
pub enum ErrorView {
    Located { line: usize, column: usize, message: Seq<char>, path: Option<Seq<char>> },
    Type(Seq<char>),
    Io(Seq<char>),
    Config(Seq<char>),
}

impl View for Error {
    type V = ErrorView;

    open spec fn view(&self) -> ErrorView {
        match self {
            Error::Located { line, column, message, path } => ErrorView::Located {
                line: *line,
                column: *column,
                message: message@,
                path: match path {
                    Some(p) => Some(p@),
                    None => None,
                },
            },
            Error::Type(m) => ErrorView::Type(m@),
            Error::Io(m) => ErrorView::Io(m@),
            Error::Config(m) => ErrorView::Config(m@),
        }
    }
}

/// A located diagnostic without a path.
pub open spec fn located(line: usize, column: usize, message: Seq<char>) -> ErrorView {
    ErrorView::Located { line, column, message, path: None }
}

/// The text `Display` renders for an error: `path:line:column: message`, or the bare message.
pub open spec fn spec_describe(e: ErrorView) -> Seq<char> {
    match e {
        ErrorView::Located { line, column, message, path } => match path {
            Some(p) => p + ":"@ + dec_chars(line as nat) + ":"@ + dec_chars(column as nat) + ": "@
                + message,
            None => dec_chars(line as nat) + ":"@ + dec_chars(column as nat) + ": "@ + message,
        },
        ErrorView::Type(m) => m,
        ErrorView::Io(m) => m,
        ErrorView::Config(m) => m,
    }
}

/// A located error with its path set to `p`; other errors unchanged.
pub open spec fn spec_with_path(e: ErrorView, p: Seq<char>) -> ErrorView {
    match e {
        ErrorView::Located { line, column, message, path: _ } => ErrorView::Located {
            line,
            column,
            message,
            path: Some(p),
        },
        other => other,
    }
}

impl Error {
    /// Construct a located diagnostic.
    pub fn at(line: usize, column: usize, message: &str) -> (e: Self)
        ensures
            e@ == located(line, column, message@),
    {
        Error::Located { line, column, message: lit(message), path: None }
    }

    /// Construct a located diagnostic from an owned message.
    pub fn at_string(line: usize, column: usize, message: String) -> (e: Self)
        ensures
            e@ == located(line, column, message@),
    {
        Error::Located { line, column, message, path: None }
    }

    /// Attach a file path to a located error.
    pub fn with_path(self, path: String) -> (e: Self)
        ensures
            e@ == spec_with_path(self@, path@),
    {
        match self {
            Error::Located { line, column, message, path: _ } => Error::Located {
                line,
                column,
                message,
                path: Some(path),
            },
            other => other,
        }
    }

    /// The rendered diagnostic (what `Display` shows): `path:line:column: message`.
    pub fn describe(&self) -> (s: String)
        ensures
            s@ == spec_describe(self@),
    {
        match self {
            Error::Located { line, column, message, path } => {
                let mut s = String::new();
                match path {
                    Some(p) => {
                        push_str(&mut s, p.as_str());
                        push_str(&mut s, ":");
                    },
                    None => {},
                }
                push_decimal(&mut s, *line);
                push_str(&mut s, ":");
                push_decimal(&mut s, *column);
                push_str(&mut s, ": ");
                push_str(&mut s, message.as_str());
                proof {
                    match path {
                        Some(p) => {
                            assert(s@ =~= spec_describe(self@));
                        },
                        None => {
                            assert(s@ =~= spec_describe(self@));
                        },
                    }
                }
                s
            },
            Error::Type(m) => copy_string(m),
            Error::Io(m) => copy_string(m),
            Error::Config(m) => copy_string(m),
        }
    }
}

/// Attaching a path to a located diagnostic that has none prefixes its rendering with
/// `path:`; errors without a location render unchanged.
pub proof fn law_with_path_prefixes(e: ErrorView, p: Seq<char>)
    ensures
        e matches ErrorView::Located { path: None, .. } ==> spec_describe(spec_with_path(e, p)) == p
            + ":"@ + spec_describe(e),
        !(e is Located) ==> spec_describe(spec_with_path(e, p)) == spec_describe(e),
{
    match e {
        ErrorView::Located { line, column, message, path } => {
            if path is None {
                assert(spec_describe(spec_with_path(e, p)) =~= p + ":"@ + spec_describe(e));
            }
        },
        _ => {},
    }
}

} // verus!
