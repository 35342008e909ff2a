//! What the media player reports about the song it plays.
use vstd::prelude::*;

verus! {

/// A song: its (main) artist and its title.
pub struct Song {
    pub artist: String,
    pub title: String,
}

impl Song {
    /// The song `title` by `artist`.
    pub fn new(artist: &str, title: &str) -> (s: Song)
        ensures
            s.artist@ == artist@,
            s.title@ == title@,
    {
        Song { artist: artist.to_owned(), title: title.to_owned() }
    }
}

/// What is missing from the metadata that a player reports.
pub enum MetadataError {
    /// The song has no title.
    MissingTitle,
    /// The song has no artist.
    MissingArtist,
    /// The song has no list of artists.
    MissingArtists,
}

impl MetadataError {
    /// The message of the error.
    pub fn message(&self) -> (m: &'static str)
        ensures
            self is MissingTitle ==> m@ == "Failed to retrieve song title from MPRIS"@,
            self is MissingArtist ==> m@ == "Failed to retrieve artist name from MPRIS"@,
            self is MissingArtists ==> m@ == "Failed to retrieve artists from MPRIS"@,
    {
        match self {
            MetadataError::MissingTitle => "Failed to retrieve song title from MPRIS",
            MetadataError::MissingArtist => "Failed to retrieve artist name from MPRIS",
            MetadataError::MissingArtists => "Failed to retrieve artists from MPRIS",
        }
    }
}

/// The song described by the `title` and the `artists` of a player's
/// metadata: the title is needed first, then the artists, of which the first
/// one is the song's artist.
pub fn song_from_metadata(title: Option<&str>, artists: Option<&Vec<&str>>) -> (r: Result<
    Song,
    MetadataError,
>)
    requires
        title is Some ==> (artists matches Some(v) ==> v.len() > 0),
    ensures
        match title {
            None => r matches Err(MetadataError::MissingTitle),
            Some(t) => match artists {
                None => r matches Err(MetadataError::MissingArtist),
                Some(v) => (r matches Ok(s) && s.title@ == t@ && s.artist@ == v@[0]@),
            },
        },
{
    let title_parsed: &str = match title {
        Some(n) => n,
        None => {
            return Err(MetadataError::MissingTitle);
        },
    };
    let artist_parsed: &str = match artists {
        Some(v) => v[0],
        None => {
            return Err(MetadataError::MissingArtist);
        },
    };
    Ok(Song::new(artist_parsed, title_parsed))
}

/// All the artists of a player's metadata, in order.
pub fn artists_from_metadata(artists: Option<&Vec<&str>>) -> (r: Result<Vec<String>, MetadataError>)
    ensures
        match artists {
            None => r matches Err(MetadataError::MissingArtists),
            Some(v) => (r matches Ok(a) && a@.len() == v@.len() && forall|i: int|
                0 <= i < v@.len() ==> #[trigger] a@[i]@ == v@[i]@),
        },
{
    match artists {
        Some(v) => {
            let mut arts: Vec<String> = Vec::new();
            for i in 0..v.len()
                invariant
                    arts@.len() == i,
                    forall|k: int| 0 <= k < i ==> #[trigger] arts@[k]@ == v@[k]@,
            {
                arts.push(v[i].to_owned());
            }
            Ok(arts)
        },
        None => Err(MetadataError::MissingArtists),
    }
}

/// How far playback is treated as ahead of the player's position, in
/// seconds, so that the filler time at a song's start is mostly skipped
/// (better late than early).
pub const FILLER_SKIP_SECS: u64 = 15;

/// The progress through a song, given the player's position and the song's
/// length (each as whole seconds and nanoseconds): the position moved
/// `FILLER_SKIP_SECS` on, and the length, zero when the player does not know it.
pub fn song_progress(position: (u64, u32), length: Option<(u64, u32)>) -> (progress: (
    (u64, u32),
    (u64, u32),
))
    requires
        position.0 + FILLER_SKIP_SECS <= u64::MAX,
    ensures
        progress.0.0 == position.0 + FILLER_SKIP_SECS,
        progress.0.1 == position.1,
        progress.1 == match length {
            Some(l) => l,
            None => (0u64, 0u32),
        },
{
    let track_length = match length {
        Some(d) => d,
        None => (0, 0),
    };
    ((position.0 + FILLER_SKIP_SECS, position.1), track_length)
}

} // verus!
