//! Splitting text into lines and searching in it, with the meaning that the
//! standard library gives to `str::lines`, `str::split('\n')` and `str::find`.
use vstd::prelude::*;
use crate::chars::views;

verus! {

/// `s` without one trailing carriage return, if it has one.
pub open spec fn strip_cr(s: Seq<char>) -> Seq<char> {
    if s.len() > 0 && s.last() == '\r' {
        s.drop_last()
    } else {
        s
    }
}

/// Scans `s` from the left, cutting after every line feed: the finished
/// pieces (each without its line feed, and without the carriage return before
/// it when `crlf`) and the unfinished piece after the last line feed.
pub open spec fn newline_scan(s: Seq<char>, crlf: bool) -> (Seq<Seq<char>>, Seq<char>)
    decreases s.len(),
{
    if s.len() == 0 {
        (seq![], seq![])
    } else {
        let (done, cur) = newline_scan(s.drop_last(), crlf);
        if s.last() == '\n' {
            (done.push(if crlf { strip_cr(cur) } else { cur }), seq![])
        } else {
            (done, cur.push(s.last()))
        }
    }
}

/// The lines of `s` as `str::lines` yields them: split at `\n` or `\r\n`, the
/// terminators dropped, and no empty last line after a final line ending.
pub open spec fn text_lines(s: Seq<char>) -> Seq<Seq<char>> {
    let (done, cur) = newline_scan(s, true);
    if cur.len() > 0 {
        done.push(cur)
    } else {
        done
    }
}

/// The pieces of `s` between line feeds, as `str::split('\n')` yields them
/// (always one more piece than there are line feeds).
pub open spec fn newline_pieces(s: Seq<char>) -> Seq<Seq<char>> {
    let (done, cur) = newline_scan(s, false);
    done.push(cur)
}

/// The number of line feeds in `s`.
pub open spec fn newline_count(s: Seq<char>) -> nat
    decreases s.len(),
{
    if s.len() == 0 {
        0
    } else {
        newline_count(s.drop_last()) + if s.last() == '\n' { 1nat } else { 0nat }
    }
}

/// The finished pieces of the scan are exactly as many as the line feeds.
pub proof fn lemma_newline_scan_count(s: Seq<char>, crlf: bool)
    ensures
        newline_scan(s, crlf).0.len() == newline_count(s),
    decreases s.len(),
{
    if s.len() > 0 {
        lemma_newline_scan_count(s.drop_last(), crlf);
    }
}

fn scan_lines(s: &Vec<char>, crlf: bool) -> (r: (Vec<Vec<char>>, Vec<char>))
    ensures
        (views(r.0@), r.1@) == newline_scan(s@, crlf),
{
    let mut done: Vec<Vec<char>> = Vec::new();
    let mut cur: Vec<char> = Vec::new();
    for i in 0..s.len()
        invariant
            (views(done@), cur@) == newline_scan(s@.take(i as int), crlf),
    {
        let c = s[i];
        proof {
            assert(s@.take(i + 1).drop_last() =~= s@.take(i as int));
        }
        if c == '\n' {
            if crlf && cur.len() > 0 && cur[cur.len() - 1] == '\r' {
                cur.pop();
            }
            let ghost before = views(done@);
            done.push(cur);
            proof {
                assert(views(done@) =~= before.push(done@.last()@));
            }
            cur = Vec::new();
        } else {
            cur.push(c);
        }
    }
    proof {
        assert(s@.take(s.len() as int) =~= s@);
    }
    (done, cur)
}

/// The lines of `s` as `str::lines` yields them.
pub fn lines_of(s: &Vec<char>) -> (ls: Vec<Vec<char>>)
    ensures
        views(ls@) == text_lines(s@),
{
    let (mut done, cur) = scan_lines(s, true);
    if cur.len() > 0 {
        let ghost before = views(done@);
        done.push(cur);
        proof {
            assert(views(done@) =~= before.push(done@.last()@));
        }
    }
    done
}

/// The pieces of `s` between line feeds, as `str::split('\n')` yields them.
pub fn pieces_of(s: &Vec<char>) -> (ps: Vec<Vec<char>>)
    ensures
        views(ps@) == newline_pieces(s@),
{
    let (mut done, cur) = scan_lines(s, false);
    let ghost before = views(done@);
    done.push(cur);
    proof {
        assert(views(done@) =~= before.push(done@.last()@));
    }
    done
}

/// The number of line feeds in `s`.
pub fn count_newlines(s: &Vec<char>) -> (n: usize)
    ensures
        n == newline_count(s@),
{
    let mut n: usize = 0;
    for i in 0..s.len()
        invariant
            n == newline_count(s@.take(i as int)),
            n <= i,
    {
        proof {
            assert(s@.take(i + 1).drop_last() =~= s@.take(i as int));
        }
        if s[i] == '\n' {
            n = n + 1;
        }
    }
    proof {
        assert(s@.take(s.len() as int) =~= s@);
    }
    n
}

// ---------------------------------------------------------------------------
// Searching
// ---------------------------------------------------------------------------

/// The first position at or after `i` where `pat` occurs in `s`.
pub open spec fn find_from(s: Seq<char>, pat: Seq<char>, i: nat) -> Option<nat>
    decreases s.len() - i,
{
    if i + pat.len() > s.len() {
        None
    } else if s.subrange(i as int, (i + pat.len()) as int) == pat {
        Some(i)
    } else if i < s.len() {
        find_from(s, pat, i + 1)
    } else {
        None
    }
}

/// The first position where `pat` occurs in `s` (`str::find`, counted in characters).
pub open spec fn first_occurrence(s: Seq<char>, pat: Seq<char>) -> Option<nat> {
    find_from(s, pat, 0)
}

/// Whether `pat` occurs in `s` (`str::contains`).
pub open spec fn occurs_in(s: Seq<char>, pat: Seq<char>) -> bool {
    first_occurrence(s, pat) is Some
}

fn matches_at(s: &Vec<char>, pat: &Vec<char>, i: usize) -> (b: bool)
    requires
        i + pat.len() <= s.len(),
    ensures
        b == (s@.subrange(i as int, i + pat.len()) == pat@),
{
    let mut k: usize = 0;
    while k < pat.len()
        invariant
            i + pat.len() <= s.len(),
            k <= pat.len(),
            forall|m: int| 0 <= m < k ==> s@[i + m] == pat@[m],
        decreases pat.len() - k,
    {
        if s[i + k] != pat[k] {
            proof {
                assert(s@.subrange(i as int, i + pat.len())[k as int] != pat@[k as int]);
            }
            return false;
        }
        k = k + 1;
    }
    proof {
        assert(s@.subrange(i as int, i + pat.len()) =~= pat@);
    }
    true
}

/// The first position where `pat` occurs in `s`, counted in characters.
pub fn find_chars(s: &Vec<char>, pat: &Vec<char>) -> (r: Option<usize>)
    ensures
        match r {
            Some(i) => first_occurrence(s@, pat@) == Some(i as nat) && i + pat.len() <= s.len(),
            None => first_occurrence(s@, pat@) is None,
        },
{
    if pat.len() > s.len() {
        return None;
    }
    let mut i: usize = 0;
    while i <= s.len() - pat.len()
        invariant
            pat.len() <= s.len(),
            i <= s.len(),
            first_occurrence(s@, pat@) == find_from(s@, pat@, i as nat),
        decreases s.len() - i,
    {
        if matches_at(s, pat, i) {
            return Some(i);
        }
        if i == s.len() {
            return None;
        }
        i = i + 1;
    }
    None
}

// ---------------------------------------------------------------------------
// Joining
// ---------------------------------------------------------------------------

/// `parts` joined with line feeds in between (`[&str]::join("\n")`).
pub open spec fn join_with_newlines(parts: Seq<Seq<char>>) -> Seq<char>
    decreases parts.len(),
{
    if parts.len() == 0 {
        seq![]
    } else if parts.len() == 1 {
        parts[0]
    } else {
        join_with_newlines(parts.drop_last()) + seq!['\n'] + parts.last()
    }
}

} // verus!
