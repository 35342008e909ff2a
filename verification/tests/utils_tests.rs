use player_lyrics::chars::is_whitespace;
use player_lyrics::utils::{genius_lyrics_cleaner, remove_between};

#[test]
fn remove_between_drops_parenthesised_part() {
    assert_eq!(remove_between("hello (world) there", '(', ')'), "hello  there");
}

#[test]
fn remove_between_drops_trailing_dashes() {
    assert_eq!(remove_between("get-lucky-(remix)--", '(', ')'), "get-lucky");
}

#[test]
fn remove_between_unclosed_span_runs_to_end() {
    assert_eq!(remove_between("abc[def", '[', ']'), "abc");
}

#[test]
fn remove_between_stray_closing_is_dropped() {
    assert_eq!(remove_between("ab)cd", '(', ')'), "abcd");
}

#[test]
fn remove_between_empty_text() {
    assert_eq!(remove_between("", '(', ')'), "");
}

#[test]
fn remove_between_is_idempotent_on_example() {
    let once = remove_between("a (b) c [d] e-(f)-", '(', ')');
    let twice = remove_between(&once, '(', ')');
    assert_eq!(once, "a  c [d] e");
    assert_eq!(once, twice);
}

#[test]
fn whitespace_matches_std_on_every_char() {
    for code in 0u32..=0x10FFFF {
        if let Some(c) = char::from_u32(code) {
            assert_eq!(is_whitespace(c), c.is_whitespace(), "code point {:#x}", code);
        }
    }
}

#[test]
fn cleaner_drops_headings_and_glues_short_fragments() {
    let verses = vec!["[Verse 1]", "  Hello there world  ", "oh", "(yeah)", "Another line here", ""];
    let cleaned = genius_lyrics_cleaner(verses);
    assert_eq!(cleaned, vec!["Hello there worldoh", "Another line here"]);
}

#[test]
fn cleaner_collapses_blank_verses() {
    let verses = vec!["First line here", " ", "   ", "Second line here"];
    let cleaned = genius_lyrics_cleaner(verses);
    assert_eq!(cleaned, vec!["First line here", "Second line here"]);
}

#[test]
fn cleaner_blank_lines_before_any_text_are_ignored() {
    let verses = vec!["  ", "Some words here", "\t", "ab", "cd"];
    let cleaned = genius_lyrics_cleaner(verses);
    assert_eq!(cleaned, vec!["Some words here", "abcd"]);
}

#[test]
fn cleaner_short_fragment_counts_bytes() {
    // "été" is three characters but five bytes: not a short fragment.
    let verses = vec!["Long enough line", "été"];
    let cleaned = genius_lyrics_cleaner(verses);
    assert_eq!(cleaned, vec!["Long enough line", "été"]);
    // "ab" is short: glued to the previous line.
    let verses = vec!["Long enough line", "ab"];
    let cleaned = genius_lyrics_cleaner(verses);
    assert_eq!(cleaned, vec!["Long enough lineab"]);
}

#[test]
fn cleaner_empty_input() {
    let cleaned = genius_lyrics_cleaner(vec![]);
    assert!(cleaned.is_empty());
}

#[test]
fn cleaner_splits_embedded_line_breaks() {
    let verses = vec!["first part\r\nsecond part"];
    let cleaned = genius_lyrics_cleaner(verses);
    assert_eq!(cleaned, vec!["first part", "second part"]);
}

#[test]
fn cleaner_lines_are_never_blank() {
    let verses = vec!["", " ", "One line of text", "", "  ", "x", "Two lines of text", " "];
    let cleaned = genius_lyrics_cleaner(verses);
    for line in &cleaned {
        assert!(!line.is_empty());
        assert_eq!(line.trim(), line);
    }
    assert_eq!(cleaned, vec!["One line of text", "xTwo lines of text"]);
}

#[test]
fn cleaner_ignores_inserted_non_lyric_verses() {
    let v1 = vec!["First line here", "ab", " ", "Second line here"];
    let v2 = vec!["", "[Chorus]", "First line here", "(x)", "ab", " ", ")", "", "Second line here", "[Outro]"];
    assert_eq!(genius_lyrics_cleaner(v1), genius_lyrics_cleaner(v2));
}
