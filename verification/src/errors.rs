//! Error taxonomy of the ingestion and search pipeline.
//!
//! A failure aborts only the enclosing photo's ingestion and names the
//! stage that failed, so a caller knows whether to retry the decode, the
//! inference, or the persistence step.

use vstd::prelude::*;

verus! {

/// Everything that can go wrong while a photo runs through the pipeline.
#[derive(Clone, Copy, PartialEq, Eq, Structural, Debug)]
pub enum CreatePhotoError {
    /// The uploaded bytes are not a decodable image.
    DecodeError,
    /// A model produced output the pipeline cannot accept
    /// (a malformed bounding box, an out-of-range coordinate).
    InferenceError,
    /// The backing store refused an insert or update.
    StoreError,
    /// A photo, face or person referenced by id does not exist.
    NotFoundError,
    /// An embedding's length disagrees with the configured
    /// dimensionality; the pipeline fails fast rather than truncate or pad.
    DimensionMismatch,
}

impl CreatePhotoError {
    /// Stage label for user-visible reporting.
    pub fn stage_name(&self) -> (r: &'static str)
        ensures
            r@ == self.spec_stage_name(),
    {
        match self {
            CreatePhotoError::DecodeError => "decode",
            CreatePhotoError::InferenceError => "inference",
            CreatePhotoError::StoreError => "store",
            CreatePhotoError::NotFoundError => "not-found",
            CreatePhotoError::DimensionMismatch => "dimension-mismatch",
        }
    }

    pub open spec fn spec_stage_name(&self) -> Seq<char> {
        match self {
            CreatePhotoError::DecodeError => "decode"@,
            CreatePhotoError::InferenceError => "inference"@,
            CreatePhotoError::StoreError => "store"@,
            CreatePhotoError::NotFoundError => "not-found"@,
            CreatePhotoError::DimensionMismatch => "dimension-mismatch"@,
        }
    }
}

} // verus!
