//! The settings snapshot a conversion run is started with.

use vstd::prelude::*;

verus! {

/// Conversion settings.  A run takes an immutable copy, so later edits by
/// the caller cannot affect a run in flight.
#[derive(Debug, Clone, Copy, PartialEq, Eq, Structural)]
pub struct AppConfig {
    /// Transcode fetched audio to the compressed format.
    pub transcode_mp3: bool,
    /// Write a playlist file after the run.
    pub generate_m3u: bool,
    /// Skip instrumental versions when searching.
    pub exclude_instrumentals: bool,
}

impl Default for AppConfig {
    /// The defaults used when no settings file is present or it cannot be
    /// read: transcode on, playlist on, instrumentals kept.
    fn default() -> (r: Self)
        ensures
            r.transcode_mp3,
            r.generate_m3u,
            !r.exclude_instrumentals,
    {
        AppConfig { transcode_mp3: true, generate_m3u: true, exclude_instrumentals: false }
    }
}

} // verus!
