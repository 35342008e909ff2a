//! Genius lyrics pages: where a song's page is, and what its lyrics are.
use vstd::prelude::*;
use crate::chars::{
    append_chars, char_is_alphanumeric, chars_of, is_alphanumeric, string_of, string_views,
};
use crate::lines::{find_chars, first_occurrence, join_with_newlines, occurs_in};
use crate::dashes::{has_double_dash, squeeze_dashes, squeeze_double_dashes};
use crate::utils::{remove_between_chars, removed_between, removed_between_drops_final_span};

verus! {

/// Why the lyrics could not be extracted from a page.
pub struct ExtractionError {
    message: &'static str,
}

impl View for ExtractionError {
    type V = Seq<char>;

    closed spec fn view(&self) -> Seq<char> {
        self.message@
    }
}

impl ExtractionError {
    /// An error carrying `message`.
    pub fn new(message: &'static str) -> (e: ExtractionError)
        ensures
            e@ == message@,
    {
        Self { message }
    }

    /// The message of the error (what the error displays as).
    pub fn message(&self) -> (m: &'static str)
        ensures
            m@ == self@,
    {
        self.message
    }
}

// ---------------------------------------------------------------------------
// Case mapping of the standard library
// ---------------------------------------------------------------------------

/// The lowercase form of a text `s` that is not all ASCII (`str::to_lowercase`).
pub uninterp spec fn non_ascii_lowercase(s: Seq<char>) -> Seq<char>;

/// The lowercase form of `s` (`str::to_lowercase`): on ASCII text, each
/// character in ASCII lowercase.
pub open spec fn str_lowercase(s: Seq<char>) -> Seq<char> {
    if is_ascii_text(s) {
        s.map_values(|c: char| ascii_lower(c))
    } else {
        non_ascii_lowercase(s)
    }
}

/// Whether every character of `s` is an ASCII character.
pub open spec fn is_ascii_text(s: Seq<char>) -> bool {
    forall|i: int| 0 <= i < s.len() ==> #[trigger] s[i] <= '\u{7f}'
}

/// ASCII lowercase of one character.
pub open spec fn ascii_lower(c: char) -> char {
    if 'A' <= c && c <= 'Z' {
        ((c as u32) + 32) as char
    } else {
        c
    }
}

/// ASCII uppercase of one character.
pub open spec fn ascii_upper(c: char) -> char {
    if 'a' <= c && c <= 'z' {
        ((c as u32) - 32) as char
    } else {
        c
    }
}

/// `str::to_lowercase`: on ASCII text the standard library's Unicode mapping
/// is the ASCII one; beyond ASCII the result is named by `non_ascii_lowercase`,
/// and nothing more is stated of it.
#[verifier::external_body]
fn to_lowercase(s: &str) -> (l: String)
    ensures
        l@ == str_lowercase(s@),
        !is_ascii_text(s@) ==> l@ == non_ascii_lowercase(s@),
{
    s.to_lowercase()
}

/// The uppercase form of an ASCII character (what `str::to_uppercase` does
/// to ASCII text).
fn ascii_uppercase_char(c: char) -> (u: char)
    requires
        c <= '\u{7f}',
    ensures
        u == ascii_upper(c),
{
    if 'a' <= c && c <= 'z' {
        let b: u8 = (c as u8) - 32;
        proof {
            assert((b as u32) == (c as u32) - 32);
        }
        b as char
    } else {
        c
    }
}

// ---------------------------------------------------------------------------
// build_url
// ---------------------------------------------------------------------------

/// `s` with every space turned into a dash (`str::replace(" ", "-")`).
pub open spec fn dashes_for_spaces(s: Seq<char>) -> Seq<char> {
    s.map_values(|c: char| if c == ' ' { '-' } else { c })
}

/// The characters of `s` that may stand in a Genius page name: alphanumeric ones and dashes.
pub open spec fn slug_chars(s: Seq<char>) -> Seq<char>
    decreases s.len(),
{
    if s.len() == 0 {
        seq![]
    } else if char_is_alphanumeric(s.last()) || s.last() == '-' {
        slug_chars(s.drop_last()).push(s.last())
    } else {
        slug_chars(s.drop_last())
    }
}

/// Only alphanumeric characters and dashes stand in the song part of a page name.
pub proof fn song_slug_has_only_slug_chars(song: Seq<char>)
    ensures
        forall|k: int|
            0 <= k < song_slug(song).len() ==> char_is_alphanumeric(#[trigger] song_slug(song)[k])
                || song_slug(song)[k] == '-',
{
    lemma_slug_chars_allowed(
        removed_between(
            removed_between(dashes_for_spaces(str_lowercase(song)), '(', ')'),
            '[',
            ']',
        ),
    );
}

proof fn lemma_slug_chars_allowed(s: Seq<char>)
    ensures
        forall|k: int|
            0 <= k < slug_chars(s).len() ==> char_is_alphanumeric(#[trigger] slug_chars(s)[k])
                || slug_chars(s)[k] == '-',
    decreases s.len(),
{
    if s.len() > 0 {
        lemma_slug_chars_allowed(s.drop_last());
        let p = slug_chars(s.drop_last());
        let q = slug_chars(s);
        assert forall|k: int| 0 <= k < q.len() implies char_is_alphanumeric(#[trigger] q[k])
            || q[k] == '-' by {
            if k < p.len() {
                assert(q[k] == p[k]);
            }
        }
    }
}

proof fn lemma_slug_chars_filter(s: Seq<char>)
    ensures
        slug_chars(s) == s.filter(|c: char| char_is_alphanumeric(c) || c == '-'),
    decreases s.len(),
{
    if s.len() > 0 {
        lemma_slug_chars_filter(s.drop_last());
        assert(s.drop_last().push(s.last()) =~= s);
        s.drop_last().lemma_filter_push(s.last(), |c: char| char_is_alphanumeric(c) || c == '-');
    } else {
        reveal(Seq::filter);
    }
}

/// The song part of a page name keeps exactly the alphanumeric characters and
/// dashes of the lowercase, dashed, bracket-free title, in order, and nothing else.
pub proof fn song_slug_keeps_exactly_slug_chars(song: Seq<char>)
    ensures
        song_slug(song) == removed_between(
            removed_between(dashes_for_spaces(str_lowercase(song)), '(', ')'),
            '[',
            ']',
        ).filter(|c: char| char_is_alphanumeric(c) || c == '-'),
{
    lemma_slug_chars_filter(
        removed_between(
            removed_between(dashes_for_spaces(str_lowercase(song)), '(', ')'),
            '[',
            ']',
        ),
    );
}

/// Deleting a character that is neither alphanumeric nor a dash from the text
/// the song part is filtered from leaves the song part as it was.
pub proof fn deleting_special_char_keeps_slug(s: Seq<char>, i: int)
    requires
        0 <= i < s.len(),
        !char_is_alphanumeric(s[i]),
        s[i] != '-',
    ensures
        slug_chars(s.remove(i)) == slug_chars(s),
{
    let p = |c: char| char_is_alphanumeric(c) || c == '-';
    lemma_slug_chars_filter(s);
    lemma_slug_chars_filter(s.remove(i));
    let a = s.take(i);
    let b = s.skip(i + 1);
    let x: Seq<char> = seq![s[i]];
    assert(s =~= a + x + b);
    assert(s.remove(i) =~= a + b);
    Seq::filter_distributes_over_add(a + x, b, p);
    Seq::filter_distributes_over_add(a, x, p);
    Seq::filter_distributes_over_add(a, b, p);
    Seq::<char>::empty().lemma_filter_push(s[i], p);
    assert(Seq::<char>::empty().push(s[i]) =~= x);
    reveal(Seq::filter);
    assert(Seq::<char>::empty().filter(p) =~= Seq::<char>::empty());
}

/// The song part of a Genius page name: lowercase, dashes for spaces, no
/// parenthesised or bracketed parts, only alphanumeric characters and dashes.
pub open spec fn song_slug(song: Seq<char>) -> Seq<char> {
    slug_chars(
        removed_between(
            removed_between(dashes_for_spaces(str_lowercase(song)), '(', ')'),
            '[',
            ']',
        ),
    )
}

/// The artist part of a Genius page name: lowercase with dashes for spaces,
/// and the first character in uppercase.
pub open spec fn artist_slug(artist: Seq<char>) -> Seq<char> {
    let a = dashes_for_spaces(str_lowercase(artist));
    a.take(1).map_values(|c: char| ascii_upper(c)) + a.skip(1)
}

/// Whether `build_url` can name the page of a song by `artists`: there is an
/// artist, and the lowercase name of the first one starts with an ASCII
/// character (the name is cut after its first byte).
pub open spec fn nameable_artists(artists: Seq<Seq<char>>) -> bool {
    artists.len() >= 1 && str_lowercase(artists[0]).len() > 0 && str_lowercase(artists[0])[0]
        <= '\u{7f}'
}

/// `-and-` followed by each of `others`, in order.
pub open spec fn other_artists_part(others: Seq<Seq<char>>) -> Seq<char>
    decreases others.len(),
{
    if others.len() == 0 {
        seq![]
    } else {
        other_artists_part(others.drop_last()) + "-and-"@ + others.last()
    }
}

/// The address of a Genius page before its runs of dashes are squeezed.
pub open spec fn raw_genius_url(artists: Seq<Seq<char>>, song: Seq<char>, all_artists: bool) -> Seq<
    char,
> {
    "https://genius.com/"@ + artist_slug(artists[0]) + (if all_artists {
        other_artists_part(artists.skip(1))
    } else {
        seq![]
    }) + "-"@ + song_slug(song) + "-lyrics"@
}

/// A parenthesised suffix such as ` (Remix)` at the end of an ASCII song
/// title does not change the song's page address.
pub proof fn parenthesised_suffix_keeps_url(
    artists: Seq<Seq<char>>,
    song: Seq<char>,
    extra: Seq<char>,
    all_artists: bool,
)
    requires
        is_ascii_text(song),
        is_ascii_text(extra),
        forall|k: int| 0 <= k < song.len() ==> #[trigger] song[k] != '(' && song[k] != ')',
        forall|k: int| 0 <= k < extra.len() ==> #[trigger] extra[k] != ')',
    ensures
        genius_url(artists, song + seq![' ', '('] + extra + seq![')'], all_artists) == genius_url(
            artists,
            song,
            all_artists,
        ),
{
    let full = song + seq![' ', '('] + extra + seq![')'];
    assert(is_ascii_text(full)) by {
        assert forall|i: int| 0 <= i < full.len() implies #[trigger] full[i] <= '\u{7f}' by {
            if i < song.len() {
                assert(full[i] == song[i]);
            } else if song.len() + 2 <= i < song.len() + 2 + extra.len() {
                assert(full[i] == extra[i - song.len() - 2]);
            }
        }
    }
    let ls = dashes_for_spaces(str_lowercase(song));
    let lx = dashes_for_spaces(str_lowercase(extra));
    assert(dashes_for_spaces(str_lowercase(full)) =~= ls + seq!['-', '('] + lx + seq![')']);
    assert forall|k: int| 0 <= k < ls.len() implies #[trigger] ls[k] != '(' && ls[k] != ')' by {
        assert(song[k] != '(' && song[k] != ')');
    }
    assert forall|k: int| 0 <= k < lx.len() implies #[trigger] lx[k] != ')' by {
        assert(extra[k] != ')');
    }
    removed_between_drops_final_span(ls, lx, '(', ')');
}

/// The address of the Genius page of `song` by `artists`: the first artist
/// alone, or all of them joined by `-and-` when `all_artists`.
pub open spec fn genius_url(artists: Seq<Seq<char>>, song: Seq<char>, all_artists: bool) -> Seq<
    char,
> {
    squeeze_dashes(raw_genius_url(artists, song, all_artists))
}

fn dashes_for_spaces_chars(s: &Vec<char>) -> (out: Vec<char>)
    ensures
        out@ == dashes_for_spaces(s@),
{
    let mut out: Vec<char> = Vec::new();
    for i in 0..s.len()
        invariant
            out@ == dashes_for_spaces(s@.take(i as int)),
    {
        let c = s[i];
        out.push(if c == ' ' { '-' } else { c });
        proof {
            assert(out@ =~= dashes_for_spaces(s@.take(i + 1)));
        }
    }
    proof {
        assert(s@.take(s.len() as int) =~= s@);
    }
    out
}

fn slug_chars_of(s: &Vec<char>) -> (out: Vec<char>)
    ensures
        out@ == slug_chars(s@),
{
    let mut out: Vec<char> = Vec::new();
    for i in 0..s.len()
        invariant
            out@ == slug_chars(s@.take(i as int)),
    {
        proof {
            assert(s@.take(i + 1).drop_last() =~= s@.take(i as int));
        }
        let c = s[i];
        if is_alphanumeric(c) || c == '-' {
            out.push(c);
        }
    }
    proof {
        assert(s@.take(s.len() as int) =~= s@);
    }
    out
}

/// The lowercase characters of `s` with dashes for spaces.
fn lowercase_dashed(s: &str) -> (out: Vec<char>)
    ensures
        out@ == dashes_for_spaces(str_lowercase(s@)),
{
    let lower = to_lowercase(s);
    let chars = chars_of(lower.as_str());
    dashes_for_spaces_chars(&chars)
}

/// Builds the address of the Genius lyrics page of `song`, naming the first of
/// `artists`, or all of them joined by `-and-` when `all_artists`. The address
/// never holds two dashes in a row.
pub fn build_url(artists: Vec<String>, song: &str, all_artists: bool) -> (url: String)
    requires
        nameable_artists(string_views(artists@)),
    ensures
        url@ == genius_url(string_views(artists@), song@, all_artists),
        !has_double_dash(url@),
{
    let ghost names = string_views(artists@);
    // Song part
    let song_fmt = lowercase_dashed(song);
    let song_fmt = remove_between_chars(&song_fmt, '(', ')');
    let song_fmt = remove_between_chars(&song_fmt, '[', ']');
    let song_cleaned = slug_chars_of(&song_fmt);
    // Artist part
    let artist = lowercase_dashed(artists[0].as_str());
    proof {
        assert(artist@.len() > 0);
        assert(names[0] == artists@[0]@);
    }
    proof {
        let lower = str_lowercase(artists@[0]@);
        assert(artist@[0] == (if lower[0] == ' ' { '-' } else { lower[0] }));
    }
    let mut artist_fmt: Vec<char> = Vec::new();
    artist_fmt.push(ascii_uppercase_char(artist[0]));
    proof {
        assert(artist_fmt@ =~= artist@.take(1).map_values(|c: char| ascii_upper(c)) + artist@.subrange(1, 1));
    }
    let mut k: usize = 1;
    while k < artist.len()
        invariant
            1 <= k <= artist.len(),
            artist_fmt@ == artist@.take(1).map_values(|c: char| ascii_upper(c)) + artist@.subrange(
                1,
                k as int,
            ),
        decreases artist.len() - k,
    {
        artist_fmt.push(artist[k]);
        proof {
            assert(artist@.subrange(1, k + 1) =~= artist@.subrange(1, k as int).push(artist@[k as int]));
        }
        k = k + 1;
    }
    proof {
        assert(artist@.subrange(1, artist@.len() as int) =~= artist@.skip(1));
    }
    // Whole address
    let mut url = chars_of("https://genius.com/");
    append_chars(&mut url, &artist_fmt);
    if all_artists {
        let mut i: usize = 1;
        while i < artists.len()
            invariant
                1 <= i <= artists.len(),
                names == string_views(artists@),
                url@ == "https://genius.com/"@ + artist_slug(names[0]) + other_artists_part(
                    names.subrange(1, i as int),
                ),
            decreases artists.len() - i,
        {
            let and_sep = chars_of("-and-");
            append_chars(&mut url, &and_sep);
            let art = chars_of(artists[i].as_str());
            append_chars(&mut url, &art);
            proof {
                assert(names.subrange(1, i + 1).drop_last() =~= names.subrange(1, i as int));
                assert(names.subrange(1, i + 1).last() == art@);
            }
            i = i + 1;
        }
        proof {
            assert(names.subrange(1, artists.len() as int) =~= names.skip(1));
        }
    } else {
        proof {
            assert(url@ =~= "https://genius.com/"@ + artist_slug(names[0]) + Seq::<char>::empty());
        }
    }
    let dash = chars_of("-");
    append_chars(&mut url, &dash);
    append_chars(&mut url, &song_cleaned);
    let tail = chars_of("-lyrics");
    append_chars(&mut url, &tail);
    let squeezed = squeeze_double_dashes(url);
    string_of(&squeezed)
}

/// Builds the address of the Genius lyrics page like `build_url`, or gives
/// `None` when `build_url` cannot name the page: no artist is given, or the
/// lowercase name of the first artist does not start with an ASCII character.
pub fn try_build_url(artists: Vec<String>, song: &str, all_artists: bool) -> (url: Option<String>)
    ensures
        match url {
            Some(u) => nameable_artists(string_views(artists@)) && u@ == genius_url(
                string_views(artists@),
                song@,
                all_artists,
            ),
            None => !nameable_artists(string_views(artists@)),
        },
{
    if artists.len() == 0 {
        return None;
    }
    let lower = to_lowercase(artists[0].as_str());
    let chars = chars_of(lower.as_str());
    proof {
        assert(string_views(artists@)[0] == artists@[0]@);
    }
    if chars.len() == 0 || chars[0] > '\u{7f}' {
        return None;
    }
    Some(build_url(artists, song, all_artists))
}

// ---------------------------------------------------------------------------
// Lyrics extraction
// ---------------------------------------------------------------------------

/// What a Genius page says when it has no such song.
pub const PAGE_NOT_FOUND_MARKER: &'static str = "Oops! Page not found";

/// The CSS selector of the page elements that hold the lyrics.
pub const LYRICS_SELECTOR: &'static str = "div[class*='Lyrics__Container']";

/// The message of the error given for a page that does not exist.
pub const NOT_FOUND_MESSAGE: &'static str =
    "Extraction has failed: is this an 'official' song release (leak)? Otherwise, please report bugs!";

/// The text nodes of an HTML document picked by a CSS selector: `None` when
/// scraper cannot parse `selector`; otherwise, for each element that matches
/// it in the tree that scraper parses from `document`, in the order in which
/// that tree stores its nodes (elements detached from the tree are skipped),
/// the text nodes below that element, in the same order.
pub uninterp spec fn selected_text_nodes(document: Seq<char>, selector: Seq<char>) -> Option<
    Seq<Seq<Seq<char>>>,
>;

/// The character sequences held by nested vectors of strings.
pub open spec fn nested_views(v: Seq<Vec<String>>) -> Seq<Seq<Seq<char>>> {
    v.map_values(|x: Vec<String>| string_views(x@))
}

/// scraper's `Selector::parse`, `Html::parse_document`, `Html::select` and
/// `ElementRef::text`: the text nodes of each element of `document` that
/// `selector` matches, named by `selected_text_nodes`. The lyrics selector is
/// a valid CSS selector, which scraper parses.
#[verifier::external_body]
fn select_text_nodes(document: &str, selector: &str) -> (texts: Option<Vec<Vec<String>>>)
    ensures
        selector@ == LYRICS_SELECTOR@ ==> texts is Some,
        match texts {
            Some(t) => selected_text_nodes(document@, selector@) == Some(nested_views(t@)),
            None => selected_text_nodes(document@, selector@) is None,
        },
{
    let selector = scraper::Selector::parse(selector).ok()?;
    let html = scraper::Html::parse_document(document);
    let mut texts: Vec<Vec<String>> = Vec::new();
    for element in html.select(&selector) {
        let mut nodes: Vec<String> = Vec::new();
        for node in element.text() {
            nodes.push(node.to_string());
        }
        texts.push(nodes);
    }
    Some(texts)
}

/// The text of the lyrics containers: each container's text nodes joined by
/// line feeds, each container followed by a line feed.
pub open spec fn containers_text(containers: Seq<Seq<Seq<char>>>) -> Seq<char>
    decreases containers.len(),
{
    if containers.len() == 0 {
        seq![]
    } else {
        containers_text(containers.drop_last()) + join_with_newlines(containers.last()) + seq!['\n']
    }
}

/// `s` from the first occurrence of `marker` on, or all of `s` when it does not occur.
pub open spec fn from_marker(s: Seq<char>, marker: Seq<char>) -> Seq<char> {
    match first_occurrence(s, marker) {
        Some(i) => s.skip(i as int),
        None => s,
    }
}

/// The lyrics held by the containers, with the page preamble cut off: the
/// text starts at the first of `Contributors`, then of `Translations`, then of
/// `Lyrics`, then of `[Intro]`, each searched in what the previous cut left.
pub open spec fn lyrics_of_containers(containers: Seq<Seq<Seq<char>>>) -> Seq<char> {
    from_marker(
        from_marker(
            from_marker(from_marker(containers_text(containers), "Contributors"@), "Translations"@),
            "Lyrics"@,
        ),
        "[Intro]"@,
    )
}

/// `s` from the first occurrence of `marker` on.
fn cut_to_marker(s: Vec<char>, marker: &str) -> (out: Vec<char>)
    ensures
        out@ == from_marker(s@, marker@),
{
    let m = chars_of(marker);
    match find_chars(&s, &m) {
        Some(idx) => {
            let mut out: Vec<char> = Vec::new();
            for k in idx..s.len()
                invariant
                    idx <= s.len(),
                    out@ == s@.subrange(idx as int, k as int),
            {
                out.push(s[k]);
            }
            proof {
                assert(s@.subrange(idx as int, s.len() as int) =~= s@.skip(idx as int));
            }
            out
        },
        None => s,
    }
}

/// The lyrics held by the text nodes of the lyrics containers of a page.
pub fn lyrics_from_containers(containers: &Vec<Vec<String>>) -> (lyrics: String)
    ensures
        lyrics@ == lyrics_of_containers(nested_views(containers@)),
{
    let ghost cs = nested_views(containers@);
    let mut text: Vec<char> = Vec::new();
    for i in 0..containers.len()
        invariant
            cs == nested_views(containers@),
            text@ == containers_text(cs.take(i as int)),
    {
        let nodes = &containers[i];
        let ghost ns = string_views(nodes@);
        let mut joined: Vec<char> = Vec::new();
        for j in 0..nodes.len()
            invariant
                ns == string_views(nodes@),
                joined@ == join_with_newlines(ns.take(j as int)),
        {
            if j > 0 {
                joined.push('\n');
            }
            let node = chars_of(nodes[j].as_str());
            append_chars(&mut joined, &node);
            proof {
                assert(ns.take(j + 1).drop_last() =~= ns.take(j as int));
                if j == 0 {
                    assert(ns.take(1) =~= seq![ns[0]]);
                }
            }
        }
        proof {
            assert(ns.take(nodes.len() as int) =~= ns);
            assert(cs.take(i + 1).drop_last() =~= cs.take(i as int));
            assert(cs.take(i + 1).last() == ns);
        }
        append_chars(&mut text, &joined);
        text.push('\n');
    }
    proof {
        assert(cs.take(containers.len() as int) =~= cs);
    }
    let text = cut_to_marker(text, "Contributors");
    let text = cut_to_marker(text, "Translations");
    let text = cut_to_marker(text, "Lyrics");
    let text = cut_to_marker(text, "[Intro]");
    string_of(&text)
}

/// Extracts the lyrics from the HTML `body` of a Genius page: an error when the
/// page says it was not found; otherwise the lyrics held by the page's lyrics
/// containers.
pub fn extract_lyrics(body: &str) -> (r: Result<String, ExtractionError>)
    ensures
        occurs_in(body@, PAGE_NOT_FOUND_MARKER@) ==> (r matches Err(e) && e@ == NOT_FOUND_MESSAGE@),
        !occurs_in(body@, PAGE_NOT_FOUND_MARKER@) ==> match selected_text_nodes(
            body@,
            LYRICS_SELECTOR@,
        ) {
            Some(cs) => (r matches Ok(l) && l@ == lyrics_of_containers(cs)),
            None => false,
        },
{
    let page = chars_of(body);
    let marker = chars_of(PAGE_NOT_FOUND_MARKER);
    if find_chars(&page, &marker).is_some() {
        return Err(ExtractionError::new(NOT_FOUND_MESSAGE));
    }
    match select_text_nodes(body, LYRICS_SELECTOR) {
        Some(containers) => Ok(lyrics_from_containers(&containers)),
        None => vstd::pervasive::unreached(),
    }
}

// ---------------------------------------------------------------------------
// Fetching with a second chance
// ---------------------------------------------------------------------------

/// Where fetching the lyrics of a song stands.
pub enum LyricsFetch {
    /// Fetch the page named after the first artist.
    FirstArtist,
    /// That page gave no lyrics: fetch the page named after all the artists.
    AllArtists,
    /// Lyrics were found.
    Found,
    /// Neither page gave lyrics: give up on this song.
    GiveUp,
}

impl LyricsFetch {
    /// Whether the page to fetch is named after all the artists (the
    /// `all_artists` argument of `build_url`).
    pub fn names_all_artists(&self) -> (all: bool)
        ensures
            all == (self is AllArtists),
    {
        match self {
            LyricsFetch::AllArtists => true,
            _ => false,
        }
    }
}

/// What to do after fetching the page of step `step`, given whether lyrics
/// were found there: done when found; otherwise the page of all artists after
/// that of the first one, and giving up after both. A finished fetch stays
/// as it is.
pub fn next_fetch(step: &LyricsFetch, found: bool) -> (next: LyricsFetch)
    ensures
        (step is FirstArtist || step is AllArtists) && found ==> next is Found,
        step is FirstArtist && !found ==> next is AllArtists,
        step is AllArtists && !found ==> next is GiveUp,
        step is Found ==> next is Found,
        step is GiveUp ==> next is GiveUp,
{
    match step {
        LyricsFetch::FirstArtist => {
            if found {
                LyricsFetch::Found
            } else {
                LyricsFetch::AllArtists
            }
        },
        LyricsFetch::AllArtists => {
            if found {
                LyricsFetch::Found
            } else {
                LyricsFetch::GiveUp
            }
        },
        LyricsFetch::Found => LyricsFetch::Found,
        LyricsFetch::GiveUp => LyricsFetch::GiveUp,
    }
}

} // verus!
