use player_lyrics::geniusgetter::{
    build_url, extract_lyrics, lyrics_from_containers, next_fetch, try_build_url, ExtractionError,
    LyricsFetch,
    NOT_FOUND_MESSAGE,
};

fn strings(v: &[&str]) -> Vec<String> {
    v.iter().map(|s| s.to_string()).collect()
}

#[test]
fn url_for_first_artist() {
    let url = build_url(strings(&["Daft Punk", "Pharrell Williams"]), "Get Lucky (feat. Pharrell)", false);
    assert_eq!(url, "https://genius.com/Daft-punk-get-lucky-lyrics");
}

#[test]
fn url_for_all_artists() {
    let url = build_url(strings(&["Daft Punk", "Pharrell Williams"]), "Get Lucky", true);
    assert_eq!(url, "https://genius.com/Daft-punk-and-Pharrell Williams-get-lucky-lyrics");
}

#[test]
fn url_drops_brackets_and_symbols() {
    let url = build_url(strings(&["ABBA"]), "Dancing Queen [Remastered] - 2001!", false);
    assert_eq!(url, "https://genius.com/Abba-dancing-queen-2001-lyrics");
}

#[test]
fn url_squeezes_dash_runs() {
    let url = build_url(strings(&["a  b"]), "x -- y", false);
    assert_eq!(url, "https://genius.com/A-b-x-y-lyrics");
    assert!(!url.contains("--"));
}

#[test]
fn url_keeps_unicode_letters() {
    let url = build_url(strings(&["Stromae"]), "Alors On Danse Été", false);
    assert_eq!(url, "https://genius.com/Stromae-alors-on-danse-été-lyrics");
}

#[test]
fn try_url_needs_an_artist() {
    assert_eq!(try_build_url(vec![], "Song", false), None);
}

#[test]
fn try_url_needs_ascii_initial() {
    assert_eq!(try_build_url(strings(&["Édith Piaf"]), "La Vie en rose", false), None);
    assert_eq!(try_build_url(strings(&[""]), "La Vie en rose", false), None);
}

#[test]
fn try_url_agrees_with_build_url() {
    let artists = strings(&["Edith Piaf"]);
    assert_eq!(
        try_build_url(artists.clone(), "La Vie en rose", false),
        Some(build_url(artists, "La Vie en rose", false))
    );
}

#[test]
fn lyrics_from_containers_joins_and_cuts_preamble() {
    let containers = vec![
        strings(&["12 Contributors", "Song Lyrics", "[Intro]", "Hello"]),
        strings(&["World"]),
    ];
    let lyrics = lyrics_from_containers(&containers);
    assert_eq!(lyrics, "[Intro]\nHello\nWorld\n");
}

#[test]
fn lyrics_from_containers_without_markers() {
    let containers = vec![strings(&["a", "b"])];
    assert_eq!(lyrics_from_containers(&containers), "a\nb\n");
    assert_eq!(lyrics_from_containers(&vec![]), "");
}

#[test]
fn lyrics_from_containers_cuts_at_lyrics_word() {
    let containers = vec![strings(&["Preamble", "Title Lyrics", "Line one"])];
    assert_eq!(lyrics_from_containers(&containers), "Lyrics\nLine one\n");
}

#[test]
fn extract_lyrics_from_page() {
    let body = "<html><body><p>Other</p><div class=\"Lyrics__Container-sc-1\">Some preamble<br>[Intro]<br>Hello <i>you</i></div><div class=\"Lyrics__Container-sc-1\">Bye</div></body></html>";
    let lyrics = extract_lyrics(body).ok().unwrap();
    assert_eq!(lyrics, "[Intro]\nHello \nyou\nBye\n");
}

#[test]
fn extract_lyrics_page_not_found() {
    let body = "<html><body>Oops! Page not found</body></html>";
    match extract_lyrics(body) {
        Err(e) => assert_eq!(e.message(), NOT_FOUND_MESSAGE),
        Ok(_) => panic!("expected an error"),
    }
}

#[test]
fn extract_lyrics_without_containers_is_empty() {
    let lyrics = extract_lyrics("<html><body><div>nothing</div></body></html>").ok().unwrap();
    assert_eq!(lyrics, "");
}

#[test]
fn extraction_error_keeps_message() {
    let e = ExtractionError::new(NOT_FOUND_MESSAGE);
    assert_eq!(e.message(), NOT_FOUND_MESSAGE);
}

#[test]
fn url_ignores_parenthesised_suffix() {
    let artists = strings(&["Daft Punk"]);
    assert_eq!(
        build_url(artists.clone(), "One More Time (Radio Edit)", false),
        build_url(artists, "One More Time", false)
    );
}

#[test]
fn fetch_steps_give_a_second_chance() {
    let first = LyricsFetch::FirstArtist;
    assert!(!first.names_all_artists());
    let second = next_fetch(&first, false);
    assert!(matches!(second, LyricsFetch::AllArtists));
    assert!(second.names_all_artists());
    assert!(matches!(next_fetch(&second, false), LyricsFetch::GiveUp));
    assert!(matches!(next_fetch(&second, true), LyricsFetch::Found));
    assert!(matches!(next_fetch(&first, true), LyricsFetch::Found));
}
