//! Core logic of a playlist builder for a music-streaming service: it groups a
//! user's saved tracks by their primary artist, resolves each artist's genre
//! tags with a retry-on-rate-limit policy, groups tracks by genre, and plans
//! the submission of one genre's tracks to a new playlist in bounded batches.
//! A snapshot of the artist/genre/track data can be serialized to text and
//! read back. All network and file traffic lives outside this crate; the
//! functions here work on plain values and carry proved contracts.
pub mod batch;
pub mod codec;
pub mod errors;
pub mod fetch;
pub mod genre;
pub mod index;
pub mod model;
pub mod naming;
pub mod plan;
pub mod resolver;
