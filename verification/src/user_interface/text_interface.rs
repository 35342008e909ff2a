//! The text interface, which prints line by line: which lines it shows.
use vstd::prelude::*;
use crate::chars::{append_chars, chars_of, str_views, string_of, string_views, strings_of, views};
use crate::musicfinder::Song;

verus! {

// ---------------------------------------------------------------------------
// Now playing
// ---------------------------------------------------------------------------

/// `and ` followed by each of `others`, one after the other.
pub open spec fn other_artists_status(others: Seq<Seq<char>>) -> Seq<char>
    decreases others.len(),
{
    if others.len() == 0 {
        seq![]
    } else {
        other_artists_status(others.drop_last()) + "and "@ + others.last()
    }
}

/// The line that announces `song` by `artists`.
pub open spec fn status_line(title: Seq<char>, artist: Seq<char>, artists: Seq<Seq<char>>) -> Seq<
    char,
> {
    "Now playing: "@ + title + " by "@ + artist + other_artists_status(artists.skip(1))
}

proof fn lemma_other_artists_flatten(others: Seq<Seq<char>>)
    ensures
        other_artists_status(others) == others.map_values(|a: Seq<char>| "and "@ + a).flatten_alt(),
    decreases others.len(),
{
    if others.len() > 0 {
        lemma_other_artists_flatten(others.drop_last());
        let m = others.map_values(|a: Seq<char>| "and "@ + a);
        assert(m.drop_last() =~= others.drop_last().map_values(|a: Seq<char>| "and "@ + a));
        assert(m.last() == "and "@ + others.last());
        assert(other_artists_status(others) =~= m.drop_last().flatten_alt() + ("and "@
            + others.last()));
    }
}

/// The status line names every artist after the first, in order, each after
/// `and `: it is `Now playing: <title> by <artist>` followed by `and <a>` for
/// each artist `a` from the second one on.
pub proof fn status_line_names_every_other_artist(
    title: Seq<char>,
    artist: Seq<char>,
    artists: Seq<Seq<char>>,
)
    ensures
        status_line(title, artist, artists) == "Now playing: "@ + title + " by "@ + artist
            + artists.skip(1).map_values(|a: Seq<char>| "and "@ + a).flatten(),
{
    let m = artists.skip(1).map_values(|a: Seq<char>| "and "@ + a);
    lemma_other_artists_flatten(artists.skip(1));
    m.lemma_flatten_and_flatten_alt_are_equivalent();
}

/// The line announcing `song_info`, followed by the other artists than the
/// first one of `artists`.
pub fn playing_status(song_info: &Song, artists: &Vec<String>) -> (status: String)
    requires
        artists.len() >= 1,
    ensures
        status@ == status_line(song_info.title@, song_info.artist@, string_views(artists@)),
{
    let ghost names = string_views(artists@);
    let mut s = chars_of("Now playing: ");
    let title = chars_of(song_info.title.as_str());
    append_chars(&mut s, &title);
    let by = chars_of(" by ");
    append_chars(&mut s, &by);
    let artist = chars_of(song_info.artist.as_str());
    append_chars(&mut s, &artist);
    let mut i: usize = 1;
    while i < artists.len()
        invariant
            1 <= i <= artists.len(),
            names == string_views(artists@),
            s@ == "Now playing: "@ + song_info.title@ + " by "@ + song_info.artist@
                + other_artists_status(names.subrange(1, i as int)),
        decreases artists.len() - i,
    {
        let and_word = chars_of("and ");
        append_chars(&mut s, &and_word);
        let a = chars_of(artists[i].as_str());
        append_chars(&mut s, &a);
        proof {
            assert(names.subrange(1, i + 1).drop_last() =~= names.subrange(1, i as int));
            assert(names.subrange(1, i + 1).last() == a@);
        }
        i = i + 1;
    }
    proof {
        assert(names.subrange(1, artists.len() as int) =~= names.skip(1));
        if artists.len() == 1 {
            assert(s@ =~= "Now playing: "@ + song_info.title@ + " by "@ + song_info.artist@
                + other_artists_status(names.skip(1)));
        }
    }
    string_of(&s)
}

// ---------------------------------------------------------------------------
// Following the lyrics
// ---------------------------------------------------------------------------

/// The verses shown when the display moves through positions `from` to `to`
/// (both included), with `last` the last verse shown before: a verse is shown
/// when it exists and differs from the last one shown. Also gives the last
/// verse shown afterwards.
pub open spec fn verses_shown(verses: Seq<Seq<char>>, from: int, to: int, last: Seq<char>) -> (Seq<
    Seq<char>,
>, Seq<char>)
    decreases to + 1 - from,
{
    if from > to {
        (seq![], last)
    } else {
        let (shown, l) = verses_shown(verses, from, to - 1, last);
        if 0 <= to < verses.len() && verses[to] != l {
            (shown.push(verses[to]), verses[to])
        } else {
            (shown, l)
        }
    }
}

proof fn lemma_verses_shown_past_end(verses: Seq<Seq<char>>, from: int, to: int, last: Seq<char>)
    requires
        to >= verses.len(),
    ensures
        verses_shown(verses, from, to, last) == verses_shown(
            verses,
            from,
            verses.len() - 1,
            last,
        ),
    decreases to - verses.len(),
{
    if to > verses.len() {
        lemma_verses_shown_past_end(verses, from, to - 1, last);
    } else if from > to {
    } else {
        assert(verses_shown(verses, from, to, last) == verses_shown(verses, from, to - 1, last));
    }
}

/// No two verses shown one after the other are equal, the first one differs
/// from the verse shown before, and the last one is the verse remembered.
pub proof fn verses_shown_never_repeat(verses: Seq<Seq<char>>, from: int, to: int, last: Seq<char>)
    ensures
        ({
            let (shown, l) = verses_shown(verses, from, to, last);
            &&& forall|k: int| 0 <= k < shown.len() - 1 ==> #[trigger] shown[k] != shown[k + 1]
            &&& shown.len() > 0 ==> shown[0] != last && shown.last() == l
            &&& shown.len() == 0 ==> l == last
        }),
    decreases to + 1 - from,
{
    if from <= to {
        verses_shown_never_repeat(verses, from, to - 1, last);
        let (shown, l) = verses_shown(verses, from, to - 1, last);
        let (shown2, l2) = verses_shown(verses, from, to, last);
        if 0 <= to < verses.len() && verses[to] != l {
            assert forall|k: int| 0 <= k < shown2.len() - 1 implies #[trigger] shown2[k] != shown2[k
                + 1] by {
                if k < shown.len() - 1 {
                    assert(shown2[k] == shown[k] && shown2[k + 1] == shown[k + 1]);
                } else {
                    assert(shown2[k] == shown.last());
                }
            }
        }
    }
}

/// Whether the verse at `i` differs from the one just before it in the span
/// that starts at `from`, the verse before the span being `last`.
pub open spec fn differs_from_previous(verses: Seq<Seq<char>>, from: int, last: Seq<char>, i: int) -> bool {
    verses[i] != if i == from {
        last
    } else {
        verses[i - 1]
    }
}

/// The last position of the span `from ..= to` that holds a verse.
pub open spec fn last_existing(verses: Seq<Seq<char>>, to: int) -> int {
    if to < verses.len() {
        to
    } else {
        verses.len() - 1
    }
}

proof fn lemma_verses_shown_changes(verses: Seq<Seq<char>>, from: int, to: int, last: Seq<char>)
    requires
        0 <= from,
        to < verses.len(),
    ensures
        verses_shown(verses, from, to, last).0 == Seq::new(
            (if to >= from { to + 1 - from } else { 0 }) as nat,
            |k: int| from + k,
        ).filter(|i: int| differs_from_previous(verses, from, last, i)).map_values(
            |i: int| verses[i],
        ),
        verses_shown(verses, from, to, last).1 == if to >= from {
            verses[to]
        } else {
            last
        },
    decreases to + 1 - from,
{
    let p = |i: int| differs_from_previous(verses, from, last, i);
    if to < from {
        reveal(Seq::filter);
        let r = Seq::new(0, |k: int| from + k);
        assert(r.filter(p) =~= Seq::<int>::empty());
    } else {
        lemma_verses_shown_changes(verses, from, to - 1, last);
        let r0 = Seq::new((if to - 1 >= from { to - from } else { 0 }) as nat, |k: int| from + k);
        let r1 = Seq::new((to + 1 - from) as nat, |k: int| from + k);
        assert(r1 =~= r0.push(to));
        r0.lemma_filter_push(to, p);
        let f0 = r0.filter(p);
        if p(to) {
            assert(f0.push(to).map_values(|i: int| verses[i]) =~= f0.map_values(|i: int| verses[i]).push(
                verses[to],
            ));
        }
    }
}

/// Moving the display over positions `from ..= to` shows exactly the verses
/// of that span that differ from the verse just before them (the last verse
/// shown, for the first one), in order: every change of verse is shown, and
/// nothing else. Afterwards the last verse shown is the last verse of the span.
pub proof fn verses_shown_are_the_changes(
    verses: Seq<Seq<char>>,
    from: int,
    to: int,
    last: Seq<char>,
)
    requires
        0 <= from,
    ensures
        ({
            let hi = last_existing(verses, to);
            &&& verses_shown(verses, from, to, last).0 == Seq::new(
                (if hi >= from { hi + 1 - from } else { 0 }) as nat,
                |k: int| from + k,
            ).filter(|i: int| differs_from_previous(verses, from, last, i)).map_values(
                |i: int| verses[i],
            )
            &&& verses_shown(verses, from, to, last).1 == if hi >= from {
                verses[hi]
            } else {
                last
            }
        }),
{
    if to >= verses.len() {
        lemma_verses_shown_past_end(verses, from, to, last);
    }
    lemma_verses_shown_changes(verses, from, last_existing(verses, to), last);
}

/// Moves the display from position `shown_lines` to `position` (included):
/// the verses to show, in order, and the last verse shown afterwards.
pub fn select_verses(
    shown_lines: usize,
    last_shown_line: &Vec<char>,
    verses: &Vec<Vec<char>>,
    position: usize,
) -> (r: (Vec<Vec<char>>, Vec<char>))
    ensures
        (views(r.0@), r.1@) == verses_shown(
            views(verses@),
            shown_lines as int,
            position as int,
            last_shown_line@,
        ),
{
    let ghost vs = views(verses@);
    let end: usize = if position < verses.len() {
        position + 1
    } else {
        verses.len()
    };
    let mut shown: Vec<Vec<char>> = Vec::new();
    let mut last: Vec<char> = last_shown_line.clone();
    proof {
        assert(last@ == last_shown_line@);
    }
    if shown_lines >= end {
        proof {
            if position >= verses.len() {
                lemma_verses_shown_past_end(vs, shown_lines as int, position as int, last_shown_line@);
            }
            assert(views(shown@) =~= Seq::<Seq<char>>::empty());
        }
        return (shown, last);
    }
    let mut idx: usize = shown_lines;
    while idx < end
        invariant
            vs == views(verses@),
            end <= verses.len(),
            shown_lines <= idx <= end,
            (views(shown@), last@) == verses_shown(vs, shown_lines as int, idx - 1, last_shown_line@),
        decreases end - idx,
    {
        let v = &verses[idx];
        let same = eq_chars(v, &last);
        if !same {
            let ghost before = shown@;
            shown.push(v.clone());
            last = v.clone();
            proof {
                assert(views(shown@) =~= views(before).push(vs[idx as int]));
            }
        }
        idx = idx + 1;
    }
    proof {
        if position >= verses.len() {
            lemma_verses_shown_past_end(vs, shown_lines as int, position as int, last_shown_line@);
        }
    }
    (shown, last)
}

/// Whether two character vectors hold the same characters.
fn eq_chars(a: &Vec<char>, b: &Vec<char>) -> (eq: bool)
    ensures
        eq == (a@ == b@),
{
    if a.len() != b.len() {
        return false;
    }
    for i in 0..a.len()
        invariant
            a.len() == b.len(),
            forall|k: int| 0 <= k < i ==> a@[k] == b@[k],
    {
        if a[i] != b[i] {
            return false;
        }
    }
    proof {
        assert(a@ =~= b@);
    }
    true
}

/// The terminal interface: where it is in the lyrics, and the last verse it printed.
#[derive(Clone)]
pub struct TextInterface {
    shown_lines: usize,
    last_shown_line: String,
}

impl TextInterface {
    /// A fresh interface, at the start of the lyrics, having printed nothing.
    pub fn new() -> (t: TextInterface)
        ensures
            t.shown_position() == 0,
            t.last_shown()@ == Seq::<char>::empty(),
    {
        TextInterface { shown_lines: 0, last_shown_line: String::new() }
    }

    /// The position reached in the lyrics.
    pub closed spec fn shown_position(&self) -> nat {
        self.shown_lines as nat
    }

    /// The last verse printed.
    pub closed spec fn last_shown(&self) -> String {
        self.last_shown_line
    }

    /// Moves the interface to `position` in `verses`: gives the verses to
    /// print, in order, namely those from the current position up to
    /// `position` that differ from the verse printed just before them.
    pub fn display_verse(&mut self, verses: &Vec<&str>, position: usize) -> (printed: Vec<String>)
        ensures
            (string_views(printed@), final(self).last_shown()@) == verses_shown(
                str_views(verses@),
                old(self).shown_position() as int,
                position as int,
                old(self).last_shown()@,
            ),
            final(self).shown_position() == position,
    {
        let mut vs: Vec<Vec<char>> = Vec::new();
        for i in 0..verses.len()
            invariant
                views(vs@) == str_views(verses@.take(i as int)),
        {
            let c = chars_of(verses[i]);
            let ghost before = vs@;
            vs.push(c);
            proof {
                assert(views(vs@) =~= views(before).push(c@));
                assert(str_views(verses@.take(i + 1)) =~= str_views(verses@.take(i as int)).push(
                    verses@[i as int]@,
                ));
            }
        }
        proof {
            assert(verses@.take(verses.len() as int) =~= verses@);
        }
        let last = chars_of(self.last_shown_line.as_str());
        let (shown, new_last) = select_verses(self.shown_lines, &last, &vs, position);
        self.last_shown_line = string_of(&new_last);
        self.shown_lines = position;
        strings_of(&shown)
    }
}

// ---------------------------------------------------------------------------
// The polling loop
// ---------------------------------------------------------------------------

/// What to do after the player reported the song it plays.
pub enum LoopStep {
    /// Nothing for now: wait for the next report.
    Wait,
    /// A new song started: announce it and fetch its lyrics.
    NewSong,
    /// The same song goes on: follow its lyrics.
    FollowLyrics,
}

/// What the player shows between songs instead of a title.
pub const UP_NEXT_TITLE: &'static str = "Up next";

/// Decides what to do with the title the player reports, given the title of
/// the last song announced and whether lyrics are known for it.
pub fn next_step(last_song: &str, have_lyrics: bool, title: &str) -> (step: LoopStep)
    ensures
        title@ == UP_NEXT_TITLE@ ==> step is Wait,
        title@ != UP_NEXT_TITLE@ && title@ != last_song@ ==> step is NewSong,
        title@ != UP_NEXT_TITLE@ && title@ == last_song@ ==> (if have_lyrics {
            step is FollowLyrics
        } else {
            step is Wait
        }),
{
    let t = chars_of(title);
    if eq_chars(&t, &chars_of(UP_NEXT_TITLE)) {
        LoopStep::Wait
    } else if !eq_chars(&chars_of(last_song), &t) {
        LoopStep::NewSong
    } else if !have_lyrics {
        LoopStep::Wait
    } else {
        LoopStep::FollowLyrics
    }
}

/// The verse to show when the position was estimated without knowing the
/// song's length: an estimate past the number of verses is clipped to the
/// last verse.
pub fn clip_position(position: usize, n_verses: usize) -> (clipped: usize)
    requires
        position > n_verses ==> n_verses >= 1,
    ensures
        clipped == if position > n_verses {
            (n_verses - 1) as usize
        } else {
            position
        },
{
    if position > n_verses {
        n_verses - 1
    } else {
        position
    }
}

} // verus!
