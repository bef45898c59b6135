//! What the media widget shows of the track that is playing.

use vstd::prelude::*;

verus! {

/// Title, artist and album of a track, as shown.
#[derive(Debug, Clone, PartialEq, Eq)]
pub struct TrackInfo {
    pub title: String,
    pub artist: String,
    pub album: String,
}

/// The mathematical content of a [`TrackInfo`].
pub struct TrackInfoView {
    pub title: Seq<char>,
    pub artist: Seq<char>,
    pub album: Seq<char>,
}

impl View for TrackInfo {
    type V = TrackInfoView;

    open spec fn view(&self) -> TrackInfoView {
        TrackInfoView { title: self.title@, artist: self.artist@, album: self.album@ }
    }
}

/// The text that is given, or the stand-in where none is.
pub open spec fn given_or(given: Option<String>, stand_in: Seq<char>) -> Seq<char> {
    match given {
        Some(text) => text@,
        None => stand_in,
    }
}

fn text_or(given: Option<String>, stand_in: &str) -> (text: String)
    ensures
        text@ == given_or(given, stand_in@),
{
    match given {
        Some(text) => text,
        None => stand_in.to_owned(),
    }
}

/// What is shown of a track: what the player tells of it, and for each
/// thing it does not tell, a text that says so. Of several artists the
/// player's first is passed in.
pub fn track_info(title: Option<String>, artist: Option<String>, album: Option<String>) -> (shown:
    TrackInfo)
    ensures
        shown.title@ == given_or(title, "Unknown Track"@),
        shown.artist@ == given_or(artist, "Unknown Artist"@),
        shown.album@ == given_or(album, "Unknown Album"@),
{
    TrackInfo {
        title: text_or(title, "Unknown Track"),
        artist: text_or(artist, "Unknown Artist"),
        album: text_or(album, "Unknown Album"),
    }
}

} // verus!
