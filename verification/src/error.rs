//! What can go wrong while the server answers an HTTP request.

use vstd::prelude::*;
use vstd::std_specs::convert::FromSpecImpl;

verus! {

/// The error type of `std::io`. Nothing is known of what is inside.
#[verifier::external_type_specification]
#[verifier::external_body]
pub struct ExIoError(std::io::Error);

/// What the server reads of an I/O error: whether the file was missing,
/// whether it was out of bounds for the process, or anything else.
#[derive(Copy, Clone, PartialEq, Eq, Structural, Debug)]
pub enum Failure {
    NotFound,
    PermissionDenied,
    Other,
}

/// The kind of an I/O error, as `std::io::Error::kind` reports it.
pub uninterp spec fn failure_of(error: std::io::Error) -> Failure;

/// `std::io::Error::kind`, told apart as far as the server cares: the kinds
/// `NotFound` and `PermissionDenied`, and all the others as one.
#[verifier::external_body]
pub(crate) fn failure(error: &std::io::Error) -> (r: Failure)
    ensures
        r == failure_of(*error),
{
    match error.kind() {
        std::io::ErrorKind::NotFound => Failure::NotFound,
        std::io::ErrorKind::PermissionDenied => Failure::PermissionDenied,
        _ => Failure::Other,
    }
}

#[derive(Debug)]
pub enum ServerError {
    IoError(std::io::Error),
    MalformedRequest,
    ResourceNotFound,
    PathOutsideResources,
}

impl ServerError {
    /// The status of the HTTP response that reports the error.
    pub open spec fn status_of(self) -> u16 {
        match self {
            ServerError::IoError(_) => 500,
            ServerError::MalformedRequest => 400,
            ServerError::ResourceNotFound => 404,
            ServerError::PathOutsideResources => 403,
        }
    }

    /// The status of the HTTP response that reports the error: 404 for a
    /// resource that was not found, 403 for a path that leaves the resources,
    /// 400 for a malformed request and 500 for any other failure.
    pub fn status(&self) -> (r: u16)
        ensures
            r == self.status_of(),
    {
        match self {
            ServerError::IoError(_) => 500,
            ServerError::MalformedRequest => 400,
            ServerError::ResourceNotFound => 404,
            ServerError::PathOutsideResources => 403,
        }
    }
}

impl From<std::io::Error> for ServerError {
    /// A file that is missing, and one that the process may not read, are
    /// both reported as a resource that was not found.
    fn from(error: std::io::Error) -> (r: ServerError) {
        match failure(&error) {
            Failure::NotFound => ServerError::ResourceNotFound,
            Failure::PermissionDenied => ServerError::ResourceNotFound,
            Failure::Other => ServerError::IoError(error),
        }
    }
}

impl FromSpecImpl<std::io::Error> for ServerError {
    open spec fn obeys_from_spec() -> bool {
        true
    }

    open spec fn from_spec(error: std::io::Error) -> ServerError {
        match failure_of(error) {
            Failure::NotFound => ServerError::ResourceNotFound,
            Failure::PermissionDenied => ServerError::ResourceNotFound,
            Failure::Other => ServerError::IoError(error),
        }
    }
}

} // verus!
