//! The track record: one title/artist/album entry of the input list.

use vstd::prelude::*;

verus! {

/// One track to fetch and tag.
#[derive(Debug, Clone, PartialEq, Eq)]
pub struct TrackInfo {
    pub title: String,
    pub artist: String,
    pub album: String,
}

/// The mathematical shape of a track: its three fields as character
/// sequences.
pub ghost struct TrackView {
    pub title: Seq<char>,
    pub artist: Seq<char>,
    pub album: Seq<char>,
}

impl View for TrackInfo {
    type V = TrackView;

    open spec fn view(&self) -> TrackView {
        TrackView { title: self.title@, artist: self.artist@, album: self.album@ }
    }
}

impl DeepView for TrackInfo {
    type V = TrackView;

    open spec fn deep_view(&self) -> TrackView {
        self.view()
    }
}

} // verus!
