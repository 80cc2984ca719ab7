//! The error taxonomy operations answer with, and the HTTP status each kind
//! crosses the boundary as.

use vstd::prelude::*;

verus! {

/// What went wrong.
#[derive(Clone, Copy, PartialEq, Eq, Structural, Debug)]
pub enum ErrorKind {
    NotFound,
    Conflict,
    BadRequest,
    Unauthorized,
    Internal,
    Interrupted,
}

/// An error as it crosses the boundary: a kind and a note for the caller.
#[derive(Debug)]
pub struct CoreError {
    pub kind: ErrorKind,
    pub msg: String,
}

impl CoreError {
    pub fn new(kind: ErrorKind, msg: String) -> (r: CoreError)
        ensures
            r.kind == kind,
            r.msg@ == msg@,
    {
        CoreError { kind, msg }
    }

    pub fn not_found(msg: String) -> (r: CoreError)
        ensures
            r.kind == ErrorKind::NotFound,
            r.msg@ == msg@,
    {
        CoreError { kind: ErrorKind::NotFound, msg }
    }

    pub fn conflict(msg: String) -> (r: CoreError)
        ensures
            r.kind == ErrorKind::Conflict,
            r.msg@ == msg@,
    {
        CoreError { kind: ErrorKind::Conflict, msg }
    }

    pub fn bad_request(msg: String) -> (r: CoreError)
        ensures
            r.kind == ErrorKind::BadRequest,
            r.msg@ == msg@,
    {
        CoreError { kind: ErrorKind::BadRequest, msg }
    }

    pub fn internal(msg: String) -> (r: CoreError)
        ensures
            r.kind == ErrorKind::Internal,
            r.msg@ == msg@,
    {
        CoreError { kind: ErrorKind::Internal, msg }
    }

    pub fn interrupted(msg: String) -> (r: CoreError)
        ensures
            r.kind == ErrorKind::Interrupted,
            r.msg@ == msg@,
    {
        CoreError { kind: ErrorKind::Interrupted, msg }
    }

    /// The status code under which the error crosses the HTTP boundary.
    pub fn status_code(&self) -> (c: u16)
        ensures
            c == self.kind.status(),
    {
        match self.kind {
            ErrorKind::NotFound => 404,
            ErrorKind::Conflict => 409,
            ErrorKind::BadRequest => 400,
            ErrorKind::Unauthorized => 401,
            ErrorKind::Internal => 500,
            ErrorKind::Interrupted => 500,
        }
    }

    /// The note for the caller.
    pub fn message(&self) -> (m: &String)
        ensures
            m@ == self.msg@,
    {
        &self.msg
    }
}

impl ErrorKind {
    /// The status code of each kind: interruptions surface as internal
    /// failures.
    pub open spec fn status(self) -> u16 {
        match self {
            ErrorKind::NotFound => 404,
            ErrorKind::Conflict => 409,
            ErrorKind::BadRequest => 400,
            ErrorKind::Unauthorized => 401,
            ErrorKind::Internal => 500,
            ErrorKind::Interrupted => 500,
        }
    }
}

} // verus!
