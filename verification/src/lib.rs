//! Verified core of a playlist-conversion utility.
//!
//! The library parses a CSV track list into records, builds fallback search
//! queries, names each fetch invocation with a collision-free prefix, selects
//! the fetched output file deterministically, models the metadata fields a
//! tag writer stamps onto an audio file, and drives the per-track conversion
//! pipeline with progress reporting, cancellation and per-track failure
//! tolerance.  External processes, the filesystem and the GUI live outside
//! the library and talk to it through plain values.

pub mod audio;
pub mod config;
pub mod csvparse;
pub mod fetch;
pub mod pipeline;
pub mod text;
pub mod track;
