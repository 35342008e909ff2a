use player_lyrics::musicfinder::{
    artists_from_metadata, song_from_metadata, song_progress, MetadataError, Song,
};
use player_lyrics::user_interface::gtk_text::{append_text, remove_text_lines};
use player_lyrics::user_interface::text_interface::{
    clip_position, next_step, playing_status, LoopStep, TextInterface,
};

#[test]
fn song_new_keeps_fields() {
    let s = Song::new("Queen", "Bohemian Rhapsody");
    assert_eq!(s.artist, "Queen");
    assert_eq!(s.title, "Bohemian Rhapsody");
}

#[test]
fn song_from_metadata_takes_first_artist() {
    let artists = vec!["Queen", "David Bowie"];
    let s = song_from_metadata(Some("Under Pressure"), Some(&artists)).ok().unwrap();
    assert_eq!(s.artist, "Queen");
    assert_eq!(s.title, "Under Pressure");
}

#[test]
fn song_from_metadata_errors() {
    let artists = vec!["Queen"];
    assert!(matches!(song_from_metadata(None, Some(&artists)), Err(MetadataError::MissingTitle)));
    assert!(matches!(song_from_metadata(None, None), Err(MetadataError::MissingTitle)));
    assert!(matches!(song_from_metadata(Some("T"), None), Err(MetadataError::MissingArtist)));
    assert_eq!(MetadataError::MissingArtist.message(), "Failed to retrieve artist name from MPRIS");
}

#[test]
fn artists_from_metadata_copies_all() {
    let artists = vec!["A", "B"];
    let a = artists_from_metadata(Some(&artists)).ok().unwrap();
    assert_eq!(a, vec!["A".to_string(), "B".to_string()]);
    assert!(matches!(artists_from_metadata(None), Err(MetadataError::MissingArtists)));
}

#[test]
fn playing_status_single_artist() {
    let s = Song::new("Queen", "Bohemian Rhapsody");
    let status = playing_status(&s, &vec!["Queen".to_string()]);
    assert_eq!(status, "Now playing: Bohemian Rhapsody by Queen");
}

#[test]
fn playing_status_more_artists() {
    let s = Song::new("Queen", "Under Pressure");
    let status = playing_status(&s, &vec!["Queen".to_string(), "David Bowie".to_string()]);
    assert_eq!(status, "Now playing: Under Pressure by Queenand David Bowie");
}

#[test]
fn display_verse_shows_new_verses_once() {
    let mut iface = TextInterface::new();
    let verses = vec!["a", "b", "b", "c"];
    assert_eq!(iface.display_verse(&verses, 1), vec!["a", "b"]);
    assert_eq!(iface.display_verse(&verses, 2), vec![] as Vec<String>);
    assert_eq!(iface.display_verse(&verses, 10), vec!["c"]);
}

#[test]
fn display_verse_position_before_current_shows_nothing() {
    let mut iface = TextInterface::new();
    let verses = vec!["a", "b", "c"];
    assert_eq!(iface.display_verse(&verses, 2), vec!["a", "b", "c"]);
    assert_eq!(iface.display_verse(&verses, 0), vec![] as Vec<String>);
    assert_eq!(iface.display_verse(&verses, 2), vec!["a", "b", "c"]);
}

#[test]
fn next_step_decisions() {
    assert!(matches!(next_step("Old", true, "Up next"), LoopStep::Wait));
    assert!(matches!(next_step("Old", true, "New"), LoopStep::NewSong));
    assert!(matches!(next_step("Old", true, "Old"), LoopStep::FollowLyrics));
    assert!(matches!(next_step("Old", false, "Old"), LoopStep::Wait));
}

#[test]
fn remove_text_lines_keeps_head() {
    let text = "Title\nLyrics:\nl1\nl2\nl3\nl4";
    assert_eq!(remove_text_lines(text, 2), "Title\nLyrics:\nl3");
}

#[test]
fn remove_text_lines_drops_empty_lines_and_trailing_space() {
    let text = "Title\n\nLyrics:\nl1 \n";
    assert_eq!(remove_text_lines(text, 0), "Title\nLyrics:\nl1");
}

#[test]
fn append_text_short() {
    assert_eq!(append_text("Title", "line"), "Title\nline");
    assert_eq!(append_text("", "x"), "\nx");
}

#[test]
fn append_text_scrolls() {
    let mut text = String::from("Title\nLyrics:");
    for i in 0..12 {
        text = append_text(&text, &format!("line {}", i));
    }
    let lines: Vec<&str> = text.split('\n').collect();
    assert!(lines.len() <= 10);
    assert_eq!(lines[0], "Title");
    assert_eq!(lines[1], "Lyrics:");
}

#[test]
fn song_progress_skips_filler() {
    assert_eq!(song_progress((10, 5), Some((200, 0))), ((25, 5), (200, 0)));
    assert_eq!(song_progress((0, 0), None), ((15, 0), (0, 0)));
}

#[test]
fn clip_position_limits_estimate() {
    assert_eq!(clip_position(3, 10), 3);
    assert_eq!(clip_position(10, 10), 10);
    assert_eq!(clip_position(12, 10), 9);
}
