//! The text shown by the window interface: a short, scrolling list of lines.
use vstd::prelude::*;
use crate::chars::{append_chars, chars_of, string_of, trim_end_chars, trim_end_ws};
use crate::lines::{
    count_newlines, lemma_newline_scan_count, newline_count, newline_pieces, newline_scan, pieces_of,
};

verus! {

/// How many line feeds the window text may hold before its oldest lines go.
pub const MAX_SHOWN_LINES: usize = 10;

/// The pieces `0 .. n` of `pieces`, without the pieces `2 .. 2 + lines_to_del`
/// and without the empty ones, each followed by a line feed.
pub open spec fn kept_pieces(pieces: Seq<Seq<char>>, n: int, lines_to_del: int) -> Seq<char>
    decreases n,
{
    if n <= 0 {
        seq![]
    } else {
        let before = kept_pieces(pieces, n - 1, lines_to_del);
        let idx = n - 1;
        if 2 <= idx && idx < 2 + lines_to_del {
            before
        } else if pieces[idx].len() > 0 {
            before + pieces[idx] + seq!['\n']
        } else {
            before
        }
    }
}

/// The window text `text` after `lines_to_del` of its lines were removed: the
/// two first lines (title and heading) stay, the next `lines_to_del` go, as
/// does the part after the last line feed; empty lines are dropped, and so is
/// the trailing white space.
pub open spec fn text_without_lines(text: Seq<char>, lines_to_del: int) -> Seq<char> {
    trim_end_ws(kept_pieces(newline_pieces(text), newline_count(text) as int, lines_to_del))
}

/// Removes `lines_to_del` lines of the window text `existing`, after its two
/// first lines.
pub fn remove_text_lines(existing: &str, lines_to_del: usize) -> (new_text: String)
    requires
        newline_count(existing@) > 2 ==> lines_to_del <= usize::MAX - 2,
    ensures
        new_text@ == text_without_lines(existing@, lines_to_del as int),
{
    let text = chars_of(existing);
    let pieces = pieces_of(&text);
    let n = count_newlines(&text);
    let ghost ps = crate::chars::views(pieces@);
    proof {
        lemma_newline_scan_count(text@, false);
        assert(ps.len() == pieces@.len());
    }
    let mut buf: Vec<char> = Vec::new();
    for idx in 0..n
        invariant
            ps == crate::chars::views(pieces@),
            pieces.len() == n + 1,
            n == newline_count(text@),
            newline_count(text@) > 2 ==> lines_to_del <= usize::MAX - 2,
            buf@ == kept_pieces(ps, idx as int, lines_to_del as int),
    {
        if 2 <= idx && idx < 2 + lines_to_del {
        } else if pieces[idx].len() > 0 {
            append_chars(&mut buf, &pieces[idx]);
            buf.push('\n');
        }
    }
    let trimmed = trim_end_chars(&buf);
    string_of(&trimmed)
}

/// The window text after `new_text` was added on a line of its own below
/// `existing`; when the text then holds `MAX_SHOWN_LINES` line feeds or more,
/// its oldest lines after the title go, so that fewer remain.
pub open spec fn text_with_line(existing: Seq<char>, new_text: Seq<char>) -> Seq<char> {
    let count = newline_count(existing) + newline_count(new_text);
    let combined = existing + seq!['\n'] + new_text;
    if count >= MAX_SHOWN_LINES {
        text_without_lines(combined, count - MAX_SHOWN_LINES + 1)
    } else {
        combined
    }
}

proof fn lemma_newline_count_concat(a: Seq<char>, b: Seq<char>)
    ensures
        newline_count(a + b) == newline_count(a) + newline_count(b),
    decreases b.len(),
{
    if b.len() == 0 {
        assert(a + b =~= a);
    } else {
        lemma_newline_count_concat(a, b.drop_last());
        assert((a + b).drop_last() =~= a + b.drop_last());
    }
}

proof fn lemma_one_newline()
    ensures
        newline_count(seq!['\n']) == 1,
{
    let nl: Seq<char> = seq!['\n'];
    assert(nl.drop_last() =~= Seq::<char>::empty());
    assert(newline_count(nl.drop_last()) == 0);
}

/// Adds `new_text` on a line of its own below the window text `existing`,
/// dropping old lines when the text grows too long.
pub fn append_text(existing: &str, new_text: &str) -> (text: String)
    requires
        newline_count(existing@) + newline_count(new_text@) <= usize::MAX,
    ensures
        text@ == text_with_line(existing@, new_text@),
{
    let old_chars = chars_of(existing);
    let new_chars = chars_of(new_text);
    let count = count_newlines(&old_chars) + count_newlines(&new_chars);
    let mut combined = old_chars;
    combined.push('\n');
    append_chars(&mut combined, &new_chars);
    let combined_text = string_of(&combined);
    if count >= MAX_SHOWN_LINES {
        proof {
            lemma_newline_count_concat(existing@ + seq!['\n'], new_text@);
            lemma_newline_count_concat(existing@, seq!['\n']);
            let nl: Seq<char> = seq!['\n'];
            lemma_one_newline();
            assert(combined@ =~= existing@ + nl + new_text@);
        }
        remove_text_lines(combined_text.as_str(), count - MAX_SHOWN_LINES + 1)
    } else {
        combined_text
    }
}

/// How many of the indices `0 .. n` lie outside `2 .. 2 + lines_to_del`.
pub open spec fn kept_index_count(n: int, lines_to_del: int) -> int {
    if n <= 2 {
        n
    } else if n <= 2 + lines_to_del {
        2
    } else {
        n - lines_to_del
    }
}

proof fn lemma_scan_pieces_single_line(s: Seq<char>)
    ensures
        ({
            let (done, cur) = newline_scan(s, false);
            &&& forall|i: int, k: int|
                0 <= i < done.len() && 0 <= k < done[i].len() ==> #[trigger] done[i][k] != '\n'
            &&& forall|k: int| 0 <= k < cur.len() ==> #[trigger] cur[k] != '\n'
        }),
    decreases s.len(),
{
    if s.len() > 0 {
        lemma_scan_pieces_single_line(s.drop_last());
        let (done0, cur0) = newline_scan(s.drop_last(), false);
        let (done, cur) = newline_scan(s, false);
        if s.last() == '\n' {
            assert forall|i: int, k: int|
                0 <= i < done.len() && 0 <= k < done[i].len() implies #[trigger] done[i][k]
                != '\n' by {
                if i < done0.len() {
                    assert(done[i] == done0[i]);
                } else {
                    assert(done[i] == cur0);
                }
            }
        } else {
            assert forall|k: int| 0 <= k < cur.len() implies #[trigger] cur[k] != '\n' by {
                if k < cur0.len() {
                    assert(cur[k] == cur0[k]);
                }
            }
        }
    }
}

proof fn lemma_no_newline_count(s: Seq<char>)
    requires
        forall|k: int| 0 <= k < s.len() ==> #[trigger] s[k] != '\n',
    ensures
        newline_count(s) == 0,
    decreases s.len(),
{
    if s.len() > 0 {
        lemma_no_newline_count(s.drop_last());
    }
}

proof fn lemma_kept_pieces_count(pieces: Seq<Seq<char>>, n: int, lines_to_del: int)
    requires
        0 <= n <= pieces.len(),
        lines_to_del >= 0,
        forall|i: int, k: int|
            0 <= i < pieces.len() && 0 <= k < pieces[i].len() ==> #[trigger] pieces[i][k] != '\n',
    ensures
        newline_count(kept_pieces(pieces, n, lines_to_del)) <= kept_index_count(n, lines_to_del),
        (forall|i: int| 0 <= i < n ==> (#[trigger] pieces[i]).len() > 0) ==> newline_count(
            kept_pieces(pieces, n, lines_to_del),
        ) == kept_index_count(n, lines_to_del),
    decreases n,
{
    if n > 0 {
        lemma_kept_pieces_count(pieces, n - 1, lines_to_del);
        if forall|i: int| 0 <= i < n ==> (#[trigger] pieces[i]).len() > 0 {
            assert(pieces[n - 1].len() > 0);
        }
        let before = kept_pieces(pieces, n - 1, lines_to_del);
        let idx = n - 1;
        if !(2 <= idx && idx < 2 + lines_to_del) && pieces[idx].len() > 0 {
            let p = pieces[idx];
            assert forall|k: int| 0 <= k < p.len() implies #[trigger] p[k] != '\n' by {
                assert(pieces[idx][k] != '\n');
            }
            lemma_no_newline_count(p);
            let nl: Seq<char> = seq!['\n'];
            lemma_one_newline();
            lemma_newline_count_concat(before, p);
            lemma_newline_count_concat(before + p, nl);
        }
    }
}

proof fn lemma_trim_end_newlines(s: Seq<char>)
    ensures
        newline_count(trim_end_ws(s)) <= newline_count(s),
    decreases s.len(),
{
    if s.len() > 0 && crate::chars::char_is_whitespace(s.last()) {
        lemma_trim_end_newlines(s.drop_last());
    }
}

/// After a line is added, the window text holds at most `MAX_SHOWN_LINES`
/// line feeds: once it would hold more, its old lines go.
pub proof fn window_text_stays_short(existing: Seq<char>, new_text: Seq<char>)
    ensures
        newline_count(text_with_line(existing, new_text)) <= MAX_SHOWN_LINES,
{
    let count = newline_count(existing) + newline_count(new_text);
    let nl: Seq<char> = seq!['\n'];
    let combined = existing + nl + new_text;
    lemma_one_newline();
    lemma_newline_count_concat(existing, nl);
    lemma_newline_count_concat(existing + nl, new_text);
    lemma_newline_scan_count(combined, false);
    lemma_scan_pieces_single_line(combined);
    let pieces = newline_pieces(combined);
    let (done, cur) = newline_scan(combined, false);
    assert forall|i: int, k: int|
        0 <= i < pieces.len() && 0 <= k < pieces[i].len() implies #[trigger] pieces[i][k] != '\n' by {
        if i < done.len() {
            assert(pieces[i] == done[i]);
        } else {
            assert(pieces[i] == cur);
        }
    }
    if count >= MAX_SHOWN_LINES {
        let del = count - MAX_SHOWN_LINES + 1;
        lemma_kept_pieces_count(pieces, newline_count(combined) as int, del);
        lemma_trim_end_newlines(kept_pieces(pieces, newline_count(combined) as int, del));
    }
}

/// Whether every line of `text` ends with a visible character: no line is
/// empty or ends in white space.
pub open spec fn lines_end_visibly(text: Seq<char>) -> bool {
    forall|i: int|
        0 <= i < newline_pieces(text).len() ==> (#[trigger] newline_pieces(text)[i]).len() > 0
            && !crate::chars::char_is_whitespace(newline_pieces(text)[i].last())
}

/// Adding a line removes no more old lines than needed: when every line
/// ends with a visible character, the window text afterwards holds exactly
/// one line feed more than before while it is short, and exactly
/// `MAX_SHOWN_LINES - 1` line feeds once it is full (the two first lines and
/// the most recent ones stay).
pub proof fn window_text_keeps_recent_lines(existing: Seq<char>, new_text: Seq<char>)
    requires
        lines_end_visibly(existing + seq!['\n'] + new_text),
    ensures
        newline_count(text_with_line(existing, new_text)) == if newline_count(existing)
            + newline_count(new_text) >= MAX_SHOWN_LINES {
            MAX_SHOWN_LINES - 1
        } else {
            (newline_count(existing) + newline_count(new_text) + 1) as int
        },
{
    let count = newline_count(existing) + newline_count(new_text);
    let nl: Seq<char> = seq!['\n'];
    let combined = existing + nl + new_text;
    lemma_one_newline();
    lemma_newline_count_concat(existing, nl);
    lemma_newline_count_concat(existing + nl, new_text);
    lemma_newline_scan_count(combined, false);
    lemma_scan_pieces_single_line(combined);
    let pieces = newline_pieces(combined);
    let (done, cur) = newline_scan(combined, false);
    assert forall|i: int, k: int|
        0 <= i < pieces.len() && 0 <= k < pieces[i].len() implies #[trigger] pieces[i][k] != '\n' by {
        if i < done.len() {
            assert(pieces[i] == done[i]);
        } else {
            assert(pieces[i] == cur);
        }
    }
    if count >= MAX_SHOWN_LINES {
        let del = count - MAX_SHOWN_LINES + 1;
        let n = newline_count(combined) as int;
        assert(n == count + 1);
        lemma_kept_pieces_count(pieces, n - 1, del);
        let before = kept_pieces(pieces, n - 1, del);
        let p = pieces[n - 1];
        let k = kept_pieces(pieces, n, del);
        assert(k == before + p + nl);
        assert(k.last() == '\n');
        assert(k.drop_last() =~= before + p);
        assert((before + p).last() == p.last());
        assert(trim_end_ws(k) == trim_end_ws(before + p));
        assert(trim_end_ws(before + p) == before + p);
        assert forall|k2: int| 0 <= k2 < p.len() implies #[trigger] p[k2] != '\n' by {
            assert(pieces[n - 1][k2] != '\n');
        }
        lemma_no_newline_count(p);
        lemma_newline_count_concat(before, p);
    }
}

} // verus!
