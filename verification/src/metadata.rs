//! The metadata record and the handler that fills it.

use crate::path::{
    file_name, file_name_of, final_component, has_component, is_final_component,
    lemma_final_component_at, lemma_final_component_exists, lemma_no_component, parent_dir,
};
use vstd::prelude::*;
use vstd::std_specs::cmp::PartialEqSpecImpl;

verus! {

/// The title of a path that has no file name.
pub const UNKNOWN_TITLE: &'static str = "Unknown";

/// The artist of every record.
pub const UNKNOWN_ARTIST: &'static str = "Unknown Artist";

/// The album of every record.
pub const UNKNOWN_ALBUM: &'static str = "Unknown Album";

/// What is known of one audio file.
#[derive(Debug)]
pub struct AudioMetadata {
    pub title: String,
    pub artist: String,
    pub album: String,
    /// In seconds.
    pub duration: u64,
    pub file_path: String,
}

/// A record as plain values.
pub ghost struct AudioMetadataView {
    pub title: Seq<char>,
    pub artist: Seq<char>,
    pub album: Seq<char>,
    pub duration: u64,
    pub file_path: Seq<char>,
}

impl View for AudioMetadata {
    type V = AudioMetadataView;

    open spec fn view(&self) -> AudioMetadataView {
        AudioMetadataView {
            title: self.title@,
            artist: self.artist@,
            album: self.album@,
            duration: self.duration,
            file_path: self.file_path@,
        }
    }
}

impl Clone for AudioMetadata {
    fn clone(&self) -> (copy: Self)
        ensures
            copy@ == self@,
    {
        AudioMetadata {
            title: self.title.clone(),
            artist: self.artist.clone(),
            album: self.album.clone(),
            duration: self.duration,
            file_path: self.file_path.clone(),
        }
    }
}

impl PartialEq for AudioMetadata {
    fn eq(&self, other: &Self) -> (equal: bool) {
        self.title == other.title && self.artist == other.artist && self.album == other.album
            && self.duration == other.duration && self.file_path == other.file_path
    }
}

impl Eq for AudioMetadata {

}

impl PartialEqSpecImpl for AudioMetadata {
    open spec fn obeys_eq_spec() -> bool {
        true
    }

    /// Two records are equal where they hold the same values.
    open spec fn eq_spec(&self, other: &Self) -> bool {
        self@ == other@
    }
}

/// The title that stands for `file_path`: its file name, or `Unknown` where
/// it has none.
pub open spec fn title_of(file_path: Seq<char>) -> Seq<char> {
    match file_name_of(file_path) {
        Some(name) => name,
        None => UNKNOWN_TITLE@,
    }
}

/// The title for `file_path`.
pub fn title_for(file_path: &str) -> (title: String)
    ensures
        title@ == title_of(file_path@),
{
    match file_name(file_path) {
        Some(name) => name,
        None => UNKNOWN_TITLE.to_owned(),
    }
}

/// The metadata of the file at `file_path`.
///
/// The file is not opened: the title is taken from the path, the path is
/// handed back as it came, and the rest is fixed. Every path is accepted and
/// none gives an error.
pub fn get_audio_metadata(file_path: String) -> (result: Result<AudioMetadata, String>)
    ensures
        result is Ok,
        result->Ok_0.file_path@ == file_path@,
        result->Ok_0.title@ == title_of(file_path@),
        result->Ok_0.artist@ == UNKNOWN_ARTIST@,
        result->Ok_0.album@ == UNKNOWN_ALBUM@,
        result->Ok_0.duration == 0,
{
    let title = title_for(file_path.as_str());
    Ok(
        AudioMetadata {
            title,
            artist: UNKNOWN_ARTIST.to_owned(),
            album: UNKNOWN_ALBUM.to_owned(),
            duration: 0,
            file_path,
        },
    )
}

/// The title of a path is its final component, wherever in the path that
/// lies, as long as it is not `..`.
pub proof fn lemma_title_is_final_component(file_path: Seq<char>, start: int, end: int)
    requires
        is_final_component(file_path, start, end),
        file_path.subrange(start, end) != parent_dir(),
    ensures
        title_of(file_path) == file_path.subrange(start, end),
{
    lemma_final_component_at(file_path, start, end);
}

/// A path with a component has a final one, and its title is that
/// component, or `Unknown` where the component is `..`.
pub proof fn lemma_title_with_component(file_path: Seq<char>)
    requires
        has_component(file_path),
    ensures
        final_component(file_path) is Some,
        title_of(file_path) == if final_component(file_path)->0 == parent_dir() {
            UNKNOWN_TITLE@
        } else {
            final_component(file_path)->0
        },
{
    lemma_final_component_exists(file_path);
}

/// A path without a component has the title `Unknown`.
pub proof fn lemma_title_without_component(file_path: Seq<char>)
    requires
        !has_component(file_path),
    ensures
        title_of(file_path) == UNKNOWN_TITLE@,
{
    lemma_no_component(file_path);
}

} // verus!
