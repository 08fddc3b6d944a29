//! The error taxonomy shared by every operation of the library.

use vstd::prelude::*;

verus! {

/// The kind of a failure, independent of its human-readable wording.
#[derive(Clone, Copy, Debug, PartialEq, Eq, Structural)]
pub enum ErrorKind {
    /// Malformed or empty required input.
    Validation,
    /// The acting identity does not match the target resource owner.
    Authorization,
    /// The token or email row the operation needs is absent.
    NotFound,
    /// A uniqueness violation not otherwise resolved by an upsert.
    Conflict,
    /// A connection or transaction failure, surfaced to the caller.
    TransientStore,
}

/// A typed failure together with a human-readable message.
#[derive(Debug)]
pub struct AppError {
    pub kind: ErrorKind,
    pub detail: String,
}

impl AppError {
    /// The human-readable message carried by this error.
    pub fn message(&self) -> (r: String)
        ensures
            r@ == self.detail@,
    {
        self.detail.clone()
    }

    pub fn validation(detail: &str) -> (e: AppError)
        ensures
            e.kind == ErrorKind::Validation,
            e.detail@ == detail@,
    {
        AppError { kind: ErrorKind::Validation, detail: detail.to_owned() }
    }

    pub fn authorization(detail: &str) -> (e: AppError)
        ensures
            e.kind == ErrorKind::Authorization,
            e.detail@ == detail@,
    {
        AppError { kind: ErrorKind::Authorization, detail: detail.to_owned() }
    }

    pub fn not_found(detail: &str) -> (e: AppError)
        ensures
            e.kind == ErrorKind::NotFound,
            e.detail@ == detail@,
    {
        AppError { kind: ErrorKind::NotFound, detail: detail.to_owned() }
    }

    pub fn transient(detail: &str) -> (e: AppError)
        ensures
            e.kind == ErrorKind::TransientStore,
            e.detail@ == detail@,
    {
        AppError { kind: ErrorKind::TransientStore, detail: detail.to_owned() }
    }
}

/// The minimal acknowledgment returned by every mutation endpoint.
pub struct OkResponse {
    pub ok: bool,
}

impl OkResponse {
    pub fn new() -> (r: OkResponse)
        ensures
            r.ok == true,
    {
        OkResponse { ok: true }
    }
}

} // verus!
