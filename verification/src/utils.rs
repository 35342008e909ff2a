//! Text clean-up of song titles and lyrics.
use vstd::prelude::*;
use crate::chars::{
    append_chars, char_is_whitespace, chars_of, str_views, string_of, string_views, strings_of,
    trim_chars, trim_end_ws, trim_start_ws, trim_ws, utf8_len_below,
};
use crate::lines::{lines_of, newline_scan, strip_cr, text_lines};


verus! {

// ---------------------------------------------------------------------------
// remove_between
// ---------------------------------------------------------------------------

/// Scans `s` from the left: the characters kept so far, and whether the scan
/// is inside an `opening` .. `closing` span.
pub open spec fn between_scan(s: Seq<char>, opening: char, closing: char) -> (Seq<char>, bool)
    decreases s.len(),
{
    if s.len() == 0 {
        (seq![], false)
    } else {
        let (kept, inside) = between_scan(s.drop_last(), opening, closing);
        let c = s.last();
        if c == opening {
            (kept, true)
        } else if c == closing {
            (kept, false)
        } else if !inside {
            (kept.push(c), inside)
        } else {
            (kept, inside)
        }
    }
}

/// `s` without the trailing copies of `c` (`str::trim_end_matches(c)`).
pub open spec fn trim_end_char(s: Seq<char>, c: char) -> Seq<char>
    decreases s.len(),
{
    if s.len() > 0 && s.last() == c {
        trim_end_char(s.drop_last(), c)
    } else {
        s
    }
}

/// The text `remove_between` gives back: every `opening` and `closing`
/// character dropped, with everything after an `opening` up to the next
/// `closing`, and then the trailing dashes dropped.
pub open spec fn removed_between(s: Seq<char>, opening: char, closing: char) -> Seq<char> {
    trim_end_char(between_scan(s, opening, closing).0, '-')
}

proof fn lemma_between_scan_excludes(s: Seq<char>, opening: char, closing: char)
    ensures
        forall|k: int|
            0 <= k < between_scan(s, opening, closing).0.len() ==> {
                let c = #[trigger] between_scan(s, opening, closing).0[k];
                c != opening && c != closing
            },
    decreases s.len(),
{
    if s.len() > 0 {
        lemma_between_scan_excludes(s.drop_last(), opening, closing);
        let prev = between_scan(s.drop_last(), opening, closing).0;
        let cur = between_scan(s, opening, closing).0;
        assert forall|k: int| 0 <= k < cur.len() implies #[trigger] cur[k] != opening && cur[k]
            != closing by {
            if k < prev.len() {
                assert(cur[k] == prev[k]);
            }
        }
    }
}

proof fn lemma_trim_end_char_prefix(s: Seq<char>, c: char)
    ensures
        trim_end_char(s, c).len() <= s.len(),
        trim_end_char(s, c) == s.subrange(0, trim_end_char(s, c).len() as int),
        trim_end_char(s, c).len() > 0 ==> trim_end_char(s, c).last() != c,
    decreases s.len(),
{
    if s.len() > 0 && s.last() == c {
        lemma_trim_end_char_prefix(s.drop_last(), c);
        assert(s.drop_last().subrange(0, trim_end_char(s, c).len() as int) =~= s.subrange(
            0,
            trim_end_char(s, c).len() as int,
        ));
    } else {
        assert(s.subrange(0, s.len() as int) =~= s);
    }
}

proof fn lemma_trim_end_char_noop(s: Seq<char>, c: char)
    requires
        s.len() == 0 || s.last() != c,
    ensures
        trim_end_char(s, c) == s,
{
}

proof fn lemma_between_scan_plain(s: Seq<char>, opening: char, closing: char)
    requires
        forall|k: int| 0 <= k < s.len() ==> #[trigger] s[k] != opening && s[k] != closing,
    ensures
        between_scan(s, opening, closing) == (s, false),
    decreases s.len(),
{
    if s.len() > 0 {
        lemma_between_scan_plain(s.drop_last(), opening, closing);
        assert(s.drop_last().push(s.last()) =~= s);
    } else {
        assert(s =~= Seq::<char>::empty());
    }
}

proof fn lemma_between_scan_push(s: Seq<char>, c: char, opening: char, closing: char)
    ensures
        between_scan(s.push(c), opening, closing) == ({
            let (kept, inside) = between_scan(s, opening, closing);
            if c == opening {
                (kept, true)
            } else if c == closing {
                (kept, false)
            } else if !inside {
                (kept.push(c), inside)
            } else {
                (kept, inside)
            }
        }),
{
    assert(s.push(c).drop_last() =~= s);
}

proof fn lemma_between_scan_inside(a: Seq<char>, b: Seq<char>, opening: char, closing: char)
    requires
        between_scan(a, opening, closing).1,
        forall|k: int| 0 <= k < b.len() ==> #[trigger] b[k] != closing,
    ensures
        between_scan(a + b, opening, closing) == between_scan(a, opening, closing),
    decreases b.len(),
{
    if b.len() == 0 {
        assert(a + b =~= a);
    } else {
        lemma_between_scan_inside(a, b.drop_last(), opening, closing);
        assert(a + b =~= (a + b.drop_last()).push(b.last()));
        lemma_between_scan_push(a + b.drop_last(), b.last(), opening, closing);
    }
}

/// A span `-` `opening` .. `closing` added at the end of a text without
/// delimiters is removed again, its dash with it.
pub proof fn removed_between_drops_final_span(
    a: Seq<char>,
    b: Seq<char>,
    opening: char,
    closing: char,
)
    requires
        forall|k: int| 0 <= k < a.len() ==> #[trigger] a[k] != opening && a[k] != closing,
        forall|k: int| 0 <= k < b.len() ==> #[trigger] b[k] != closing,
        opening != '-',
        closing != '-',
        opening != closing,
    ensures
        removed_between(a + seq!['-', opening] + b + seq![closing], opening, closing)
            == removed_between(a, opening, closing),
{
    lemma_between_scan_plain(a, opening, closing);
    let a1 = a.push('-');
    lemma_between_scan_push(a, '-', opening, closing);
    let a2 = a1.push(opening);
    lemma_between_scan_push(a1, opening, opening, closing);
    lemma_between_scan_inside(a2, b, opening, closing);
    lemma_between_scan_push(a2 + b, closing, opening, closing);
    assert(a + seq!['-', opening] + b + seq![closing] =~= (a2 + b).push(closing));
    assert(a1.drop_last() =~= a);
}

/// The characters of `s` without the trailing copies of `c`.
fn trim_end_char_vec(s: &mut Vec<char>, c: char)
    ensures
        final(s)@ == trim_end_char(old(s)@, c),
{
    while s.len() > 0 && s[s.len() - 1] == c
        invariant
            trim_end_char(s@, c) == trim_end_char(old(s)@, c),
        decreases s.len(),
    {
        let ghost before = s@;
        s.pop();
        proof {
            assert(s@ =~= before.drop_last());
        }
    }
}

pub(crate) fn remove_between_chars(text: &Vec<char>, opening: char, closing: char) -> (out: Vec<char>)
    ensures
        out@ == removed_between(text@, opening, closing),
{
    let mut kept: Vec<char> = Vec::new();
    let mut in_between = false;
    for i in 0..text.len()
        invariant
            (kept@, in_between) == between_scan(text@.take(i as int), opening, closing),
    {
        let c = text[i];
        proof {
            assert(text@.take(i + 1).drop_last() =~= text@.take(i as int));
        }
        if c == opening {
            in_between = true;
        } else if c == closing {
            in_between = false;
        } else if !in_between {
            kept.push(c);
        }
    }
    proof {
        assert(text@.take(text.len() as int) =~= text@);
    }
    trim_end_char_vec(&mut kept, '-');
    kept
}

/// Removes from `text` every span that starts with `opening` and ends with the
/// next `closing` (both delimiters included; an unclosed span runs to the end),
/// drops stray `closing` characters, and then drops the trailing dashes.
///
/// The result holds neither delimiter and does not end with a dash.
pub fn remove_between(text: &str, opening: char, closing: char) -> (new_text: String)
    ensures
        new_text@ == removed_between(text@, opening, closing),
        forall|k: int|
            0 <= k < new_text@.len() ==> #[trigger] new_text@[k] != opening && new_text@[k]
                != closing,
        new_text@.len() > 0 ==> new_text@.last() != '-',
{
    let chars = chars_of(text);
    let out = remove_between_chars(&chars, opening, closing);
    proof {
        lemma_removed_between_shape(text@, opening, closing);
    }
    string_of(&out)
}

proof fn lemma_removed_between_shape(s: Seq<char>, opening: char, closing: char)
    ensures
        forall|k: int|
            0 <= k < removed_between(s, opening, closing).len() ==> #[trigger] removed_between(
                s,
                opening,
                closing,
            )[k] != opening && removed_between(s, opening, closing)[k] != closing,
        removed_between(s, opening, closing).len() > 0 ==> removed_between(
            s,
            opening,
            closing,
        ).last() != '-',
{
    let kept = between_scan(s, opening, closing).0;
    lemma_between_scan_excludes(s, opening, closing);
    lemma_trim_end_char_prefix(kept, '-');
    let r = removed_between(s, opening, closing);
    assert forall|k: int| 0 <= k < r.len() implies #[trigger] r[k] != opening && r[k] != closing by {
        assert(r[k] == kept[k]);
    }
}

/// Removing the spans a second time changes nothing: `remove_between` is idempotent.
pub proof fn remove_between_idempotent(s: Seq<char>, opening: char, closing: char)
    ensures
        removed_between(removed_between(s, opening, closing), opening, closing)
            == removed_between(s, opening, closing),
{
    let r = removed_between(s, opening, closing);
    lemma_removed_between_shape(s, opening, closing);
    lemma_between_scan_plain(r, opening, closing);
    lemma_trim_end_char_noop(r, '-');
}

// ---------------------------------------------------------------------------
// genius_lyrics_cleaner
// ---------------------------------------------------------------------------

/// Whether a verse takes part in the lyrics: it is not empty and does not
/// start with `[`, `(` or `)` (section headings and stage directions).
pub open spec fn is_lyric_verse(v: Seq<char>) -> bool {
    v.len() > 0 && v[0] != '[' && v[0] != '(' && v[0] != ')'
}

/// Whether a trimmed line is a short fragment (fewer than five bytes of UTF-8),
/// which is glued to the current line instead of starting a new one.
pub open spec fn is_short_fragment(t: Seq<char>) -> bool {
    vstd::utf8::encode_utf8(t).len() < 5
}

/// One step of the clean-up: the text built so far and whether the last thing
/// added was a normal line, updated with the verse `v`.
pub open spec fn clean_step(state: (Seq<char>, bool), v: Seq<char>) -> (Seq<char>, bool) {
    let (text, prev_normal) = state;
    let t = trim_ws(v);
    if !is_lyric_verse(v) {
        state
    } else if t.len() == 0 {
        if prev_normal {
            (text.push('\n'), false)
        } else {
            state
        }
    } else if is_short_fragment(t) {
        (text + t, prev_normal)
    } else {
        ((if text.len() > 0 && prev_normal { text.push('\n') } else { text }) + t, true)
    }
}

/// The clean-up state after all the verses of `verses`, in order.
pub open spec fn clean_fold(verses: Seq<Seq<char>>) -> (Seq<char>, bool)
    decreases verses.len(),
{
    if verses.len() == 0 {
        (seq![], false)
    } else {
        clean_step(clean_fold(verses.drop_last()), verses.last())
    }
}

/// The lines `genius_lyrics_cleaner` gives back for `verses`.
pub open spec fn cleaned_lyrics(verses: Seq<Seq<char>>) -> Seq<Seq<char>> {
    text_lines(clean_fold(verses).0)
}

/// Cleans lyrics scraped from Genius, given line by line.
///
/// Verses that are empty or start with `[`, `(` or `)` are dropped. Each other
/// verse is trimmed; a verse that is blank once trimmed ends the current line
/// (several blank verses in a row count as one); a short fragment (under five
/// bytes) is glued to the current line; any other verse starts a new line.
/// The resulting text is split into lines again.
pub fn genius_lyrics_cleaner(verses: Vec<&str>) -> (cleaned: Vec<String>)
    ensures
        string_views(cleaned@) == cleaned_lyrics(str_views(verses@)),
{
    let ghost vs = str_views(verses@);
    let mut result: Vec<char> = Vec::new();
    let mut prev_line_was_normal = false;
    for i in 0..verses.len()
        invariant
            vs == str_views(verses@),
            (result@, prev_line_was_normal) == clean_fold(vs.take(i as int)),
    {
        let v = chars_of(verses[i]);
        proof {
            assert(vs.take(i + 1).drop_last() =~= vs.take(i as int));
            assert(vs.take(i + 1).last() == v@);
        }
        let keep = v.len() > 0 && v[0] != '[' && v[0] != '(' && v[0] != ')';
        let t = trim_chars(&v);
        if !keep {
        } else if t.len() == 0 {
            if prev_line_was_normal {
                result.push('\n');
                prev_line_was_normal = false;
            }
        } else if utf8_len_below(&t, 5) {
            append_chars(&mut result, &t);
        } else {
            if result.len() > 0 && prev_line_was_normal {
                result.push('\n');
            }
            append_chars(&mut result, &t);
            prev_line_was_normal = true;
        }
    }
    proof {
        assert(vs.take(verses.len() as int) =~= vs);
    }
    let ls = lines_of(&result);
    strings_of(&ls)
}


/// The verses of `verses` that take part in the lyrics, in order.
pub open spec fn lyric_verses(verses: Seq<Seq<char>>) -> Seq<Seq<char>>
    decreases verses.len(),
{
    if verses.len() == 0 {
        seq![]
    } else if is_lyric_verse(verses.last()) {
        lyric_verses(verses.drop_last()).push(verses.last())
    } else {
        lyric_verses(verses.drop_last())
    }
}

/// Only the verses that take part in the lyrics matter to the clean-up: the
/// state it ends in is the one it ends in on those verses alone.
pub proof fn clean_fold_only_lyric_verses(verses: Seq<Seq<char>>)
    ensures
        clean_fold(verses) == clean_fold(lyric_verses(verses)),
    decreases verses.len(),
{
    if verses.len() > 0 {
        clean_fold_only_lyric_verses(verses.drop_last());
        if is_lyric_verse(verses.last()) {
            let l = lyric_verses(verses);
            assert(l.drop_last() =~= lyric_verses(verses.drop_last()));
        }
    }
}

/// Empty verses and verses that start with `[`, `(` or `)` do not change the
/// cleaned lyrics, wherever and however many of them stand: two lists with
/// the same lyric verses, in the same order, clean up alike.
pub proof fn non_lyric_verses_change_nothing(v1: Seq<Seq<char>>, v2: Seq<Seq<char>>)
    requires
        lyric_verses(v1) == lyric_verses(v2),
    ensures
        cleaned_lyrics(v1) == cleaned_lyrics(v2),
{
    clean_fold_only_lyric_verses(v1);
    clean_fold_only_lyric_verses(v2);
}

proof fn lemma_lyric_verses_insert(verses: Seq<Seq<char>>, i: int, extra: Seq<char>)
    requires
        0 <= i <= verses.len(),
        !is_lyric_verse(extra),
    ensures
        lyric_verses(verses.insert(i, extra)) == lyric_verses(verses),
    decreases verses.len(),
{
    let w = verses.insert(i, extra);
    if i == verses.len() {
        assert(w.drop_last() =~= verses);
    } else {
        lemma_lyric_verses_insert(verses.drop_last(), i, extra);
        assert(w.drop_last() =~= verses.drop_last().insert(i, extra));
        assert(w.last() == verses.last());
    }
}

/// Inserting an empty verse, or one that starts with `[`, `(` or `)`, at any
/// place does not change the cleaned lyrics.
pub proof fn inserting_non_lyric_verse_changes_nothing(
    verses: Seq<Seq<char>>,
    i: int,
    extra: Seq<char>,
)
    requires
        0 <= i <= verses.len(),
        extra.len() == 0 || extra[0] == '[' || extra[0] == '(' || extra[0] == ')',
    ensures
        cleaned_lyrics(verses.insert(i, extra)) == cleaned_lyrics(verses),
{
    lemma_lyric_verses_insert(verses, i, extra);
    non_lyric_verses_change_nothing(verses.insert(i, extra), verses);
}

/// Whether no verse of `verses` holds a line feed.
pub open spec fn single_line_verses(verses: Seq<Seq<char>>) -> bool {
    forall|i: int, k: int|
        0 <= i < verses.len() && 0 <= k < verses[i].len() ==> #[trigger] verses[i][k] != '\n'
}

/// The shape of the text the clean-up builds: every line feed follows a
/// character that is not white space and is followed (if anything follows)
/// by one; the text starts with a character that is not white space, and ends
/// with a line feed or with such a character; after a normal line the text
/// ends with a character that is not white space.
pub open spec fn well_broken(text: Seq<char>, prev_normal: bool) -> bool {
    &&& forall|k: int|
        0 <= k < text.len() && #[trigger] text[k] == '\n' ==> k >= 1 && !char_is_whitespace(
            text[k - 1],
        ) && (k + 1 < text.len() ==> !char_is_whitespace(text[k + 1]))
    &&& text.len() > 0 ==> !char_is_whitespace(text[0])
    &&& text.len() > 0 ==> (text.last() == '\n' || !char_is_whitespace(text.last()))
    &&& prev_normal ==> text.len() > 0 && !char_is_whitespace(text.last())
}

proof fn lemma_trim_ends(s: Seq<char>)
    ensures
        trim_start_ws(s).len() <= s.len(),
        trim_start_ws(s) == s.subrange(s.len() - trim_start_ws(s).len(), s.len() as int),
        trim_start_ws(s).len() > 0 ==> !char_is_whitespace(trim_start_ws(s)[0]),
    decreases s.len(),
{
    if s.len() > 0 && char_is_whitespace(s[0]) {
        lemma_trim_ends(s.drop_first());
        let t = trim_start_ws(s);
        assert(s.drop_first().subrange(s.drop_first().len() - t.len(), s.drop_first().len() as int)
            =~= s.subrange(s.len() - t.len(), s.len() as int));
    } else {
        assert(s.subrange(0, s.len() as int) =~= s);
    }
}

proof fn lemma_trim_end_ends(s: Seq<char>)
    ensures
        trim_end_ws(s).len() <= s.len(),
        trim_end_ws(s) == s.subrange(0, trim_end_ws(s).len() as int),
        trim_end_ws(s).len() > 0 ==> !char_is_whitespace(trim_end_ws(s).last()),
    decreases s.len(),
{
    if s.len() > 0 && char_is_whitespace(s.last()) {
        lemma_trim_end_ends(s.drop_last());
        let t = trim_end_ws(s);
        assert(s.drop_last().subrange(0, t.len() as int) =~= s.subrange(0, t.len() as int));
    } else {
        assert(s.subrange(0, s.len() as int) =~= s);
    }
}

/// A trimmed verse starts and ends with characters that are not white space,
/// and holds only characters of the verse.
proof fn lemma_trimmed(v: Seq<char>)
    ensures
        trim_ws(v).len() > 0 ==> !char_is_whitespace(trim_ws(v)[0]) && !char_is_whitespace(
            trim_ws(v).last(),
        ),
        forall|k: int| 0 <= k < trim_ws(v).len() ==> v.contains(#[trigger] trim_ws(v)[k]),
{
    lemma_trim_ends(v);
    let a = trim_start_ws(v);
    lemma_trim_end_ends(a);
    let t = trim_ws(v);
    if t.len() > 0 {
        assert(t[0] == a[0]);
    }
    assert forall|k: int| 0 <= k < t.len() implies v.contains(#[trigger] t[k]) by {
        assert(t[k] == a[k]);
        assert(a[k] == v[v.len() - a.len() + k]);
    }
}

proof fn lemma_clean_step_well_broken(state: (Seq<char>, bool), v: Seq<char>)
    requires
        well_broken(state.0, state.1),
        forall|k: int| 0 <= k < v.len() ==> #[trigger] v[k] != '\n',
    ensures
        well_broken(clean_step(state, v).0, clean_step(state, v).1),
{
    let (text, prev_normal) = state;
    let t = trim_ws(v);
    lemma_trimmed(v);
    assert forall|k: int| 0 <= k < t.len() implies #[trigger] t[k] != '\n' by {
        assert(v.contains(t[k]));
    }
    if !is_lyric_verse(v) {
    } else if t.len() == 0 {
        if prev_normal {
            let r = text.push('\n');
            assert forall|k: int|
                0 <= k < r.len() && #[trigger] r[k] == '\n' implies k >= 1 && !char_is_whitespace(
                r[k - 1],
            ) && (k + 1 < r.len() ==> !char_is_whitespace(r[k + 1])) by {
                if k < text.len() {
                    assert(r[k] == text[k]);
                    assert(r[k - 1] == text[k - 1]);
                    if k + 1 < text.len() {
                        assert(r[k + 1] == text[k + 1]);
                    }
                }
            }
        }
    } else {
        let base = if is_short_fragment(t) || !(text.len() > 0 && prev_normal) {
            text
        } else {
            text.push('\n')
        };
        let r = base + t;
        assert(well_broken(base, false)) by {
            if base != text {
                assert forall|k: int|
                    0 <= k < base.len() && #[trigger] base[k] == '\n' implies k >= 1
                    && !char_is_whitespace(base[k - 1]) && (k + 1 < base.len()
                    ==> !char_is_whitespace(base[k + 1])) by {
                    if k < text.len() {
                        assert(base[k] == text[k]);
                        assert(base[k - 1] == text[k - 1]);
                        if k + 1 < text.len() {
                            assert(base[k + 1] == text[k + 1]);
                        }
                    }
                }
            }
        }
        assert(base.len() > 0 ==> base.last() == '\n' || !char_is_whitespace(base.last()));
        assert forall|k: int|
            0 <= k < r.len() && #[trigger] r[k] == '\n' implies k >= 1 && !char_is_whitespace(
            r[k - 1],
        ) && (k + 1 < r.len() ==> !char_is_whitespace(r[k + 1])) by {
            if k >= base.len() {
                assert(r[k] == t[k - base.len()]);
            } else {
                assert(r[k] == base[k]);
                assert(r[k - 1] == base[k - 1]);
                if k + 1 < base.len() {
                    assert(r[k + 1] == base[k + 1]);
                } else if k + 1 < r.len() {
                    assert(r[k + 1] == t[0]);
                }
            }
        }
        assert(r.last() == t.last());
        if base.len() > 0 {
            assert(r[0] == base[0]);
        } else {
            assert(r[0] == t[0]);
        }
        assert(clean_step(state, v) == (r, if is_short_fragment(t) { prev_normal } else { true }));
    }
}

proof fn lemma_clean_fold_well_broken(verses: Seq<Seq<char>>)
    requires
        single_line_verses(verses),
    ensures
        well_broken(clean_fold(verses).0, clean_fold(verses).1),
    decreases verses.len(),
{
    if verses.len() > 0 {
        let init = verses.drop_last();
        assert(single_line_verses(init)) by {
            assert forall|i: int, k: int| 0 <= i < init.len() && 0 <= k < init[i].len() implies #[trigger] init[i][k]
                != '\n' by {
                assert(init[i] == verses[i]);
            }
        }
        lemma_clean_fold_well_broken(init);
        let v = verses.last();
        assert forall|k: int| 0 <= k < v.len() implies #[trigger] v[k] != '\n' by {
            assert(verses[verses.len() - 1][k] != '\n');
        }
        lemma_clean_step_well_broken(clean_fold(init), v);
    }
}

/// The scan of a well broken text gives lines that are not empty and neither
/// start nor end with white space; the unfinished piece starts with a
/// character that is not white space, and ends with the last character read.
proof fn lemma_scan_well_broken(text: Seq<char>, n: int)
    requires
        well_broken(text, false),
        0 <= n <= text.len(),
    ensures
        ({
            let (done, cur) = newline_scan(text.take(n), true);
            &&& forall|i: int|
                0 <= i < done.len() ==> (#[trigger] done[i]).len() > 0 && !char_is_whitespace(
                    done[i][0],
                ) && !char_is_whitespace(done[i].last())
            &&& cur.len() > 0 ==> !char_is_whitespace(cur[0]) && cur.last() == text[n - 1]
            &&& cur.len() == 0 ==> (n == 0 || text[n - 1] == '\n')
        }),
    decreases n,
{
    if n > 0 {
        lemma_scan_well_broken(text, n - 1);
        assert(text.take(n).drop_last() =~= text.take(n - 1));
        assert(text.take(n).last() == text[n - 1]);
        let (done0, cur0) = newline_scan(text.take(n - 1), true);
        let c = text[n - 1];
        if c == '\n' {
            assert(!char_is_whitespace(text[n - 2]));
            assert(cur0.len() > 0);
            assert(strip_cr(cur0) == cur0);
            let done = done0.push(cur0);
            assert forall|i: int| 0 <= i < done.len() implies (#[trigger] done[i]).len() > 0
                && !char_is_whitespace(done[i][0]) && !char_is_whitespace(done[i].last()) by {
                if i < done0.len() {
                    assert(done[i] == done0[i]);
                }
            }
        } else {
            if cur0.len() == 0 {
                assert(n - 1 == 0 || text[n - 2] == '\n');
                assert(!char_is_whitespace(text[n - 1]));
            }
        }
    }
}

/// When no verse holds a line feed, every line of the cleaned lyrics is
/// non-empty, and starts and ends with a character that is not white space:
/// blank verses never turn into blank lines.
pub proof fn cleaned_lines_are_not_blank(verses: Seq<Seq<char>>)
    requires
        single_line_verses(verses),
    ensures
        forall|i: int|
            0 <= i < cleaned_lyrics(verses).len() ==> (#[trigger] cleaned_lyrics(verses)[i]).len()
                > 0 && !char_is_whitespace(cleaned_lyrics(verses)[i][0]) && !char_is_whitespace(
                cleaned_lyrics(verses)[i].last(),
            ),
{
    lemma_clean_fold_well_broken(verses);
    let text = clean_fold(verses).0;
    assert(well_broken(text, false));
    lemma_scan_well_broken(text, text.len() as int);
    assert(text.take(text.len() as int) =~= text);
    let (done, cur) = newline_scan(text, true);
    if cur.len() > 0 {
        assert(text.last() != '\n');
        let ls = cleaned_lyrics(verses);
        assert forall|i: int| 0 <= i < ls.len() implies (#[trigger] ls[i]).len() > 0
            && !char_is_whitespace(ls[i][0]) && !char_is_whitespace(ls[i].last()) by {
            if i < done.len() {
                assert(ls[i] == done[i]);
            }
        }
    }
}

/// `s` without its line feeds.
pub open spec fn without_newlines(s: Seq<char>) -> Seq<char>
    decreases s.len(),
{
    if s.len() == 0 {
        seq![]
    } else if s.last() == '\n' {
        without_newlines(s.drop_last())
    } else {
        without_newlines(s.drop_last()).push(s.last())
    }
}

proof fn lemma_without_newlines_concat(a: Seq<char>, b: Seq<char>)
    ensures
        without_newlines(a + b) == without_newlines(a) + without_newlines(b),
    decreases b.len(),
{
    if b.len() == 0 {
        assert(a + b =~= a);
        assert(without_newlines(a) + without_newlines(b) =~= without_newlines(a));
    } else {
        lemma_without_newlines_concat(a, b.drop_last());
        assert((a + b).drop_last() =~= a + b.drop_last());
    }
}

proof fn lemma_without_newlines_plain(t: Seq<char>)
    requires
        forall|k: int| 0 <= k < t.len() ==> #[trigger] t[k] != '\n',
    ensures
        without_newlines(t) == t,
    decreases t.len(),
{
    if t.len() > 0 {
        lemma_without_newlines_plain(t.drop_last());
        assert(t.drop_last().push(t.last()) =~= t);
    }
}

/// The trimmed lyric verses of `verses`, one after the other.
spec fn trimmed_lyric_text(verses: Seq<Seq<char>>) -> Seq<char>
    decreases verses.len(),
{
    if verses.len() == 0 {
        seq![]
    } else {
        trimmed_lyric_text(verses.drop_last()) + if is_lyric_verse(verses.last()) {
            trim_ws(verses.last())
        } else {
            seq![]
        }
    }
}

proof fn lemma_fold_text_without_newlines(verses: Seq<Seq<char>>)
    requires
        single_line_verses(verses),
    ensures
        without_newlines(clean_fold(verses).0) == trimmed_lyric_text(verses),
    decreases verses.len(),
{
    if verses.len() > 0 {
        let init = verses.drop_last();
        assert(single_line_verses(init)) by {
            assert forall|i: int, k: int| 0 <= i < init.len() && 0 <= k < init[i].len() implies #[trigger] init[i][k]
                != '\n' by {
                assert(init[i] == verses[i]);
            }
        }
        lemma_fold_text_without_newlines(init);
        let v = verses.last();
        let (text, prev) = clean_fold(init);
        let t = trim_ws(v);
        lemma_trimmed(v);
        assert forall|k: int| 0 <= k < t.len() implies #[trigger] t[k] != '\n' by {
            assert(v.contains(t[k]));
            let j = choose|j: int| 0 <= j < v.len() && v[j] == t[k];
            assert(verses[verses.len() - 1][j] != '\n');
        }
        lemma_without_newlines_plain(t);
        let nl: Seq<char> = seq!['\n'];
        lemma_without_newlines_plain(Seq::<char>::empty());
        assert(without_newlines(nl) == Seq::<char>::empty()) by {
            assert(nl.drop_last() =~= Seq::<char>::empty());
        }
        lemma_without_newlines_concat(text, nl);
        lemma_without_newlines_concat(text, t);
        lemma_without_newlines_concat(text + nl, t);
        assert(text.push('\n') =~= text + nl);
        assert(without_newlines(text) + Seq::<char>::empty() =~= without_newlines(text));
    }
}

proof fn lemma_scan_flatten(text: Seq<char>, n: int)
    requires
        well_broken(text, false),
        0 <= n <= text.len(),
    ensures
        ({
            let (done, cur) = newline_scan(text.take(n), true);
            done.flatten_alt() + cur == without_newlines(text.take(n))
        }),
    decreases n,
{
    if n == 0 {
        assert(text.take(0) =~= Seq::<char>::empty());
        assert(Seq::<Seq<char>>::empty().flatten_alt() + Seq::<char>::empty() =~= Seq::<char>::empty());
    } else {
        lemma_scan_flatten(text, n - 1);
        lemma_scan_well_broken(text, n - 1);
        assert(text.take(n).drop_last() =~= text.take(n - 1));
        assert(text.take(n).last() == text[n - 1]);
        let (done0, cur0) = newline_scan(text.take(n - 1), true);
        if text[n - 1] == '\n' {
            assert(!char_is_whitespace(text[n - 2]));
            assert(cur0.len() > 0);
            assert(strip_cr(cur0) == cur0);
            let done = done0.push(cur0);
            assert(done.drop_last() =~= done0);
            assert(done.flatten_alt() + Seq::<char>::empty() =~= done0.flatten_alt() + cur0);
        } else {
            assert(done0.flatten_alt() + cur0.push(text[n - 1]) =~= (done0.flatten_alt() + cur0).push(
                text[n - 1],
            ));
        }
    }
}

proof fn lemma_filtered_trimmed(verses: Seq<Seq<char>>, p: spec_fn(Seq<char>) -> bool)
    requires
        forall|v: Seq<char>| #[trigger] p(v) == is_lyric_verse(v),
    ensures
        verses.filter(p).map_values(|v: Seq<char>| trim_ws(v)).flatten_alt() == trimmed_lyric_text(
            verses,
        ),
    decreases verses.len(),
{
    if verses.len() == 0 {
        reveal(Seq::filter);
        assert(verses.filter(p).map_values(|v: Seq<char>| trim_ws(v)) =~= Seq::<Seq<char>>::empty());
    } else {
        let init = verses.drop_last();
        lemma_filtered_trimmed(init, p);
        assert(init.push(verses.last()) =~= verses);
        init.lemma_filter_push(verses.last(), p);
        let f0 = init.filter(p);
        let m0 = f0.map_values(|v: Seq<char>| trim_ws(v));
        if p(verses.last()) {
            let m = f0.push(verses.last()).map_values(|v: Seq<char>| trim_ws(v));
            assert(m =~= m0.push(trim_ws(verses.last())));
            assert(m.drop_last() =~= m0);
        } else {
            assert(trimmed_lyric_text(verses) =~= trimmed_lyric_text(init));
        }
    }
}

/// The clean-up keeps every lyric: when no verse holds a line feed, the lines
/// of the cleaned lyrics, put end to end, are the verses that are not empty
/// and do not start with `[`, `(` or `)`, each trimmed, put end to end in
/// order. No such verse is dropped or cut, and nothing else is added.
pub proof fn cleaned_lyrics_keep_every_verse(verses: Seq<Seq<char>>)
    requires
        single_line_verses(verses),
    ensures
        cleaned_lyrics(verses).flatten() == verses.filter(
            |v: Seq<char>| v.len() > 0 && v[0] != '[' && v[0] != '(' && v[0] != ')',
        ).map_values(|v: Seq<char>| trim_ws(v)).flatten(),
{
    let p = |v: Seq<char>| v.len() > 0 && v[0] != '[' && v[0] != '(' && v[0] != ')';
    lemma_clean_fold_well_broken(verses);
    let text = clean_fold(verses).0;
    lemma_scan_flatten(text, text.len() as int);
    lemma_scan_well_broken(text, text.len() as int);
    assert(text.take(text.len() as int) =~= text);
    lemma_fold_text_without_newlines(verses);
    let (done, cur) = newline_scan(text, true);
    let ls = cleaned_lyrics(verses);
    if cur.len() > 0 {
        assert(ls.drop_last() =~= done);
    } else {
        assert(done.flatten_alt() + cur =~= done.flatten_alt());
    }
    ls.lemma_flatten_and_flatten_alt_are_equivalent();
    lemma_filtered_trimmed(verses, p);
    verses.filter(p).map_values(|v: Seq<char>| trim_ws(v)).lemma_flatten_and_flatten_alt_are_equivalent();
}

} // verus!
