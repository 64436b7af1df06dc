//! Server errors, classified by the kind of response they should produce.

use vstd::prelude::*;
use crate::text::string_concat;

verus! {

/// What kind of failure an [`Error`] reports.
#[derive(Debug, Clone, Copy, PartialEq, Eq, Structural)]
pub enum ErrorKind {
    Forbbiden,
    BadRequest,
    Internal,
}

/// An error carrying a human-readable message and its kind.
#[derive(Debug, Clone)]
pub struct Error {
    pub inner: String,
    pub err_kind: ErrorKind,
}

/// The prefix that the textual form of an error of kind `k` starts with.
pub open spec fn kind_context(k: ErrorKind) -> Seq<char> {
    match k {
        ErrorKind::Forbbiden => "forbidden"@,
        ErrorKind::BadRequest => "bad request"@,
        ErrorKind::Internal => "internal error"@,
    }
}

impl Error {
    pub fn internal(inner: String) -> (e: Self)
        ensures
            e.inner@ == inner@,
            e.err_kind == ErrorKind::Internal,
    {
        Self { inner, err_kind: ErrorKind::Internal }
    }

    pub fn forbidden(inner: String) -> (e: Self)
        ensures
            e.inner@ == inner@,
            e.err_kind == ErrorKind::Forbbiden,
    {
        Self { inner, err_kind: ErrorKind::Forbbiden }
    }

    pub fn bad_request(inner: String) -> (e: Self)
        ensures
            e.inner@ == inner@,
            e.err_kind == ErrorKind::BadRequest,
    {
        Self { inner, err_kind: ErrorKind::BadRequest }
    }

    /// The textual form of the error: its kind's context, a colon, and the message.
    pub fn to_string(&self) -> (s: String)
        ensures
            s@ == kind_context(self.err_kind) + ": "@ + self.inner@,
    {
        let context: &str = match self.err_kind {
            ErrorKind::Forbbiden => "forbidden",
            ErrorKind::BadRequest => "bad request",
            ErrorKind::Internal => "internal error",
        };
        let s = string_concat(context, ": ");
        s.concat(self.inner.as_str())
    }
}

/// Conversion of plain failures into [`Error`]s of a given kind.
pub trait ResultExt<T>: Sized {
    fn err_internal(self) -> Result<T, Error>;

    fn err_forbidden(self) -> Result<T, Error>;

    fn err_bad_request(self) -> Result<T, Error>;
}

impl<T> ResultExt<T> for Result<T, String> {
    fn err_internal(self) -> (r: Result<T, Error>)
        ensures
            match (self, r) {
                (Ok(a), Ok(b)) => a == b,
                (Err(m), Err(e)) => e.inner@ == m@ && e.err_kind == ErrorKind::Internal,
                _ => false,
            },
    {
        match self {
            Ok(v) => Ok(v),
            Err(m) => Err(Error::internal(m)),
        }
    }

    fn err_forbidden(self) -> (r: Result<T, Error>)
        ensures
            match (self, r) {
                (Ok(a), Ok(b)) => a == b,
                (Err(m), Err(e)) => e.inner@ == m@ && e.err_kind == ErrorKind::Forbbiden,
                _ => false,
            },
    {
        match self {
            Ok(v) => Ok(v),
            Err(m) => Err(Error::forbidden(m)),
        }
    }

    fn err_bad_request(self) -> (r: Result<T, Error>)
        ensures
            match (self, r) {
                (Ok(a), Ok(b)) => a == b,
                (Err(m), Err(e)) => e.inner@ == m@ && e.err_kind == ErrorKind::BadRequest,
                _ => false,
            },
    {
        match self {
            Ok(v) => Ok(v),
            Err(m) => Err(Error::bad_request(m)),
        }
    }
}

} // verus!
