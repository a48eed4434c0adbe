//! Checks whether the newest distributed game build is already recorded in
//! the community archive manifest.
//!
//! The library holds the verified logic: digests and their hexadecimal form,
//! the manifest's digest set, the choice of candidate downloads, the choice
//! and placement of archive entries, and the comparison of a computed digest
//! with the manifest.

pub mod archive;
pub mod digest;
pub mod discovery;
pub mod manifest;
pub mod pipeline;
