//! The rows and request shapes the pipeline works with. Embeddings are
//! fixed-point vectors; bounding boxes are kept in pixel coordinates of
//! the photo they were detected in.

use vstd::prelude::*;
use crate::geometry::PixelBox;
use crate::preprocess::PreprocessConfig;

verus! {

/// A stored photo. The embedding is attached synchronously during
/// ingestion, before the row is considered complete.
pub struct Photo {
    pub id: i32,
    pub path: Option<String>,
    pub title: Option<String>,
    pub user_id: i32,
    pub album_id: Option<i32>,
    pub embedding: Option<Vec<i64>>,
}

/// A photo as listed to clients: everything but the embedding.
pub struct ListPhoto {
    pub id: i32,
    pub path: Option<String>,
    pub title: Option<String>,
    pub user_id: i32,
    pub album_id: Option<i32>,
}

/// What a photo insert starts from.
pub struct NewPhoto {
    pub title: Option<String>,
    pub user_id: i32,
    pub album_id: Option<i32>,
}

/// An upload: the photo bytes and where they belong.
pub struct PhotoForm {
    pub title: String,
    pub album_id: i32,
    pub photo_image: Vec<u8>,
}

impl NewPhoto {
    pub fn from_form(photo: &PhotoForm, uid: i32) -> (r: NewPhoto)
        ensures
            r.title matches Some(t) && t@ == photo.title@,
            r.user_id == uid,
            r.album_id == Some(photo.album_id),
    {
        NewPhoto { title: Some(photo.title.clone()), user_id: uid, album_id: Some(
            photo.album_id,
        ) }
    }
}

/// A person cluster: one believed identity.
pub struct Person {
    pub id: i32,
    pub title: String,
    pub avatar: String,
}

/// What a person insert starts from.
pub struct NewPerson {
    pub title: String,
    pub avatar: String,
}

/// A face detected in a photo. Created during the detection pass and
/// then completed with its box, embedding, person and crop path; never
/// reassigned to another person afterwards.
pub struct Face {
    pub id: i32,
    pub person_id: Option<i32>,
    pub photo_id: i32,
    pub embedding: Option<Vec<i64>>,
    pub bbox: Option<PixelBox>,
    pub path: Option<String>,
}

/// What a face insert starts from.
pub struct NewFace {
    pub photo_id: i32,
}

/// Free-text search request.
pub struct SearchQuery {
    pub text: Option<String>,
}

/// Listing filters: an optional text query and an optional result cap.
pub struct PhotosFilters {
    pub text: Option<String>,
    pub qty: Option<i32>,
}

/// Token claims of a signed-in user.
pub struct Cliams {
    pub exp: usize,
    pub iat: usize,
    pub email: String,
}

/// How long an issued token stays valid, in seconds.
pub const TOKEN_LIFETIME_SECS: usize = 86_400;

impl Cliams {
    /// The claims a sign-in at `now` (seconds since the epoch) issues:
    /// valid from now, for one day.
    pub fn issue(email: String, now: usize) -> (r: Cliams)
        requires
            now + TOKEN_LIFETIME_SECS <= usize::MAX,
        ensures
            r.iat == now,
            r.exp == now + TOKEN_LIFETIME_SECS,
            r.email == email,
    {
        Cliams { exp: now + TOKEN_LIFETIME_SECS, iat: now, email }
    }

    /// Whether the claims are still valid at `now`.
    pub fn valid_at(&self, now: usize) -> (r: bool)
        ensures
            r == (self.iat <= now < self.exp),
    {
        self.iat <= now && now < self.exp
    }
}

/// Credentials presented at login.
pub struct AuthRequest {
    pub email: String,
    pub password: String,
}

/// Loaded text-embedding model: its output dimensionality.
pub struct EmbedText {
    pub dim: usize,
}

/// Loaded image-embedding model: its input contract and output
/// dimensionality.
pub struct EmbedImage {
    pub input: PreprocessConfig,
    pub dim: usize,
}

/// The pair of joint encoders, loaded once per process and shared
/// read-only. Both must map into one vector space, so their output
/// dimensionalities agree.
pub struct EncoderState {
    pub embed_text: EmbedText,
    pub embed_image: EmbedImage,
}

impl EncoderState {
    pub open spec fn wf(&self) -> bool {
        &&& self.embed_text.dim == self.embed_image.dim
        &&& self.embed_image.input.wf()
    }
}

} // verus!
