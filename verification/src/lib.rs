//! Core of a photo gallery with face recognition and semantic search.
//!
//! A photo is ingested through a chain of inference stages: its bytes are
//! decoded and preprocessed into a model input tensor, a detector yields
//! face candidates, each face is cropped and embedded, an identity
//! resolver attaches every face to a person cluster, and the photo itself
//! is embedded for free-text retrieval. Embeddings are fixed-point
//! vectors; all geometry, ranking and clustering decisions are verified.

pub mod errors;
pub mod fixedpoint;
pub mod gallery;
pub mod geometry;
pub mod imaging;
pub mod models;
pub mod preprocess;
pub mod resolver;
pub mod search;
pub mod storage;
pub mod utils;
