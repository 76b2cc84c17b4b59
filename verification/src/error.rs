//! Errors for parsing and validation.

use vstd::prelude::*;

use crate::resolver::error::{query_error_message, QueryError, QueryErrorV};
use crate::text::{join_strs, join_strings, push_str, strings_view};

verus! {

/// Errors surfaced by parsing, validation, or interchange operations. Reading failures carry the
/// message of the reader that failed.
#[derive(Debug)]
pub enum Error {
    Io(String),
    Yaml(String),
    Json(String),
    Validation(Vec<String>),
    Query(QueryError),
    NotImplemented,
}

pub enum ErrorV {
    Io(Seq<char>),
    Yaml(Seq<char>),
    Json(Seq<char>),
    Validation(Seq<Seq<char>>),
    Query(QueryErrorV),
    NotImplemented,
}

impl View for Error {
    type V = ErrorV;

    open spec fn view(&self) -> ErrorV {
        match self {
            Error::Io(s) => ErrorV::Io(s@),
            Error::Yaml(s) => ErrorV::Yaml(s@),
            Error::Json(s) => ErrorV::Json(s@),
            Error::Validation(v) => ErrorV::Validation(strings_view(v@)),
            Error::Query(q) => ErrorV::Query(q@),
            Error::NotImplemented => ErrorV::NotImplemented,
        }
    }
}

/// The message of a validation failure: a heading line, then one line per issue.
pub open spec fn validation_message(issues: Seq<Seq<char>>) -> Seq<char> {
    "validation failed:\n"@ + join_strs(issues, "\n"@)
}

/// The message of an error.
pub open spec fn error_message(e: ErrorV) -> Seq<char> {
    match e {
        ErrorV::Io(s) => "I/O error: "@ + s,
        ErrorV::Yaml(s) => "YAML parse error: "@ + s,
        ErrorV::Json(s) => "JSON parse error: "@ + s,
        ErrorV::Validation(v) => validation_message(v),
        ErrorV::Query(q) => query_error_message(q),
        ErrorV::NotImplemented => "not yet implemented"@,
    }
}

impl Error {
    /// The message of the error (its `Display` text).
    pub fn to_string(&self) -> (res: String)
        ensures
            res@ == error_message(self@),
    {
        match self {
            Error::Io(s) => {
                let mut out = String::from_str("I/O error: ");
                push_str(&mut out, s.as_str());
                out
            },
            Error::Yaml(s) => {
                let mut out = String::from_str("YAML parse error: ");
                push_str(&mut out, s.as_str());
                out
            },
            Error::Json(s) => {
                let mut out = String::from_str("JSON parse error: ");
                push_str(&mut out, s.as_str());
                out
            },
            Error::Validation(v) => {
                let mut out = String::from_str("validation failed:\n");
                let body = join_strings(v, "\n");
                push_str(&mut out, body.as_str());
                out
            },
            Error::Query(q) => q.to_string(),
            Error::NotImplemented => String::from_str("not yet implemented"),
        }
    }
}

} // verus!
