//! The tag writer's verified side: the format check on fetched files, the
//! decision which tag schema a file gets, and the model of what stamping
//! title/artist/album does to a metadata container.

use vstd::prelude::*;
use crate::text::ext_of;

verus! {

/// A compressed-audio file must begin with a recognized tag-container
/// signature: the bytes of "ID3" or of "TAG".
pub open spec fn mp3_signature(bytes: Seq<u8>) -> bool {
    bytes.len() >= 3 && ((bytes[0] == 73 && bytes[1] == 68 && bytes[2] == 51) || (bytes[0] == 84
        && bytes[1] == 65 && bytes[2] == 71))
}

/// Check the first bytes of a file for a recognized tag-container
/// signature; a fetched file without one is refused as corrupt.
pub fn is_valid_mp3(header: &[u8]) -> (r: bool)
    ensures
        r == mp3_signature(header@),
{
    if header.len() < 3 {
        return false;
    }
    let b0 = header[0];
    let b1 = header[1];
    let b2 = header[2];
    (b0 == 73 && b1 == 68 && b2 == 51) || (b0 == 84 && b1 == 65 && b2 == 71)
}

/// The two tag schemas the writer knows; they are not interchangeable
/// between container formats.
#[derive(Debug, Clone, Copy, PartialEq, Eq, Structural)]
pub enum TagKind {
    /// The schema of compressed-audio containers.
    Id3v2,
    /// The schema of MPEG-4 audio containers.
    Mp4Ilst,
}

/// Why a tag write failed.
#[derive(Debug, Clone, PartialEq, Eq)]
pub enum TagError {
    /// The file could not be parsed as its expected container.
    Read { detail: String },
    /// The rewrite of the file failed.
    Write { detail: String },
}

/// The mathematical shape of a tag error.
pub ghost enum TagErrorView {
    Read { detail: Seq<char> },
    Write { detail: Seq<char> },
}

impl View for TagError {
    type V = TagErrorView;

    open spec fn view(&self) -> TagErrorView {
        match self {
            TagError::Read { detail } => TagErrorView::Read { detail: detail@ },
            TagError::Write { detail } => TagErrorView::Write { detail: detail@ },
        }
    }
}

/// What the tag writer does with a fetched file, decided from the settings
/// and the file's name.
#[derive(Debug, Clone, Copy, PartialEq, Eq, Structural)]
pub enum TagPlan {
    /// A compressed-audio file: check its signature, then stamp the
    /// compressed-audio schema.
    CheckThenId3,
    /// An MPEG-4 audio file: stamp its schema directly.
    Mp4,
    /// Any other file is left untouched.
    Skip,
}

/// The tagging decision: compressed-format tagging only when transcoding
/// was requested and the file carries the compressed extension; MPEG-4
/// tagging for the MPEG-4 extension; otherwise no tagging.
pub open spec fn tag_plan_spec(transcode_mp3: bool, name: Seq<char>) -> TagPlan {
    if transcode_mp3 && ext_of(name) == Some("mp3"@) {
        TagPlan::CheckThenId3
    } else if ext_of(name) == Some("m4a"@) {
        TagPlan::Mp4
    } else {
        TagPlan::Skip
    }
}

/// Decide what the tag writer does with the named file.
pub fn tag_plan(transcode_mp3: bool, name: &str) -> (r: TagPlan)
    ensures
        r == tag_plan_spec(transcode_mp3, name@),
{
    match crate::text::extension_of(name) {
        Some(e) => {
            if transcode_mp3 && crate::text::str_eq(e.as_str(), "mp3") {
                TagPlan::CheckThenId3
            } else if crate::text::str_eq(e.as_str(), "m4a") {
                TagPlan::Mp4
            } else {
                TagPlan::Skip
            }
        },
        None => TagPlan::Skip,
    }
}

/// A metadata container as the tag writer sees it: the three fields it
/// stamps, and every other field, which it must leave untouched.
#[derive(Debug, Clone)]
pub struct TagRecord {
    pub title: String,
    pub artist: String,
    pub album: String,
    /// The remaining fields of the container (track number, genre, embedded
    /// art, ...), as name/value pairs.
    pub other: Vec<(String, String)>,
}

/// The mathematical shape of a metadata container.
pub ghost struct TagRecordView {
    pub title: Seq<char>,
    pub artist: Seq<char>,
    pub album: Seq<char>,
    pub other: Seq<(String, String)>,
}

impl View for TagRecord {
    type V = TagRecordView;

    open spec fn view(&self) -> TagRecordView {
        TagRecordView {
            title: self.title@,
            artist: self.artist@,
            album: self.album@,
            other: self.other@,
        }
    }
}

/// What stamping title/artist/album does to a container: the three fields
/// are overwritten, everything else is kept.
pub open spec fn retag(r: TagRecordView, t: Seq<char>, a: Seq<char>, al: Seq<char>) -> TagRecordView {
    TagRecordView { title: t, artist: a, album: al, other: r.other }
}

/// Stamp title/artist/album onto a metadata container, leaving every other
/// field untouched.
pub fn set_basic_tags(rec: &mut TagRecord, title: &str, artist: &str, album: &str)
    ensures
        final(rec)@ == retag(old(rec)@, title@, artist@, album@),
{
    rec.title = String::from_str(title);
    rec.artist = String::from_str(artist);
    rec.album = String::from_str(album);
}

/// Tagging is idempotent: stamping the same three fields twice leaves the
/// container exactly as stamping them once does.
pub proof fn lemma_tagging_idempotent(r: TagRecordView, t: Seq<char>, a: Seq<char>, al: Seq<char>)
    ensures
        retag(retag(r, t, a, al), t, a, al) == retag(r, t, a, al),
{
}

} // verus!
