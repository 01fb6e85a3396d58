//! The error surface of the service operations.

use vstd::prelude::*;

verus! {

/// A failure of one of the external stores or engines, as the operations of
/// this crate classify it.
#[derive(PartialEq, Eq, Structural, Clone, Copy, Debug)]
pub enum StoreFault {
    /// The catalog transaction did not commit; the batch was rolled back.
    CommitFailed,
    /// The blob store refused a put; the file is dropped from its batch.
    BlobPutFailed,
    /// The blob store has no object under the requested key.
    BlobNotFound,
    /// The thumbnail namespace has no entry under the requested key.
    ThumbNotFound,
    /// The search index refused the document write.
    IndexWriteFailed,
    /// The text-extraction engine produced no text for the input.
    ExtractionFailed,
    /// A request carried values the catalog cannot evaluate.
    InvalidQuery,
}

/// What a service operation reports to its caller.
#[derive(PartialEq, Eq, Structural, Clone, Copy, Debug)]
pub enum ApiError {
    Unauthorized,
    CdnObjectNotFound,
    ObjectIsAlreadyPublic,
    ObjectHasNoThumbnail,
    Internal(StoreFault),
}

impl ApiError {
    /// The HTTP status code the embedding server answers with.
    pub fn status_code(&self) -> (code: u16)
        ensures
            code == self.spec_status_code(),
    {
        match self {
            ApiError::Unauthorized => 401,
            ApiError::CdnObjectNotFound => 404,
            ApiError::ObjectIsAlreadyPublic => 409,
            ApiError::ObjectHasNoThumbnail => 404,
            ApiError::Internal(_) => 500,
        }
    }

    pub open spec fn spec_status_code(&self) -> u16 {
        match self {
            ApiError::Unauthorized => 401,
            ApiError::CdnObjectNotFound => 404,
            ApiError::ObjectIsAlreadyPublic => 409,
            ApiError::ObjectHasNoThumbnail => 404,
            ApiError::Internal(_) => 500,
        }
    }
}

} // verus!
