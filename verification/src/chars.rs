//! Character-level building blocks shared by the text processing of the crate.
use vstd::prelude::*;

verus! {

/// The character sequences held by a sequence of character vectors.
pub open spec fn views(v: Seq<Vec<char>>) -> Seq<Seq<char>> {
    v.map_values(|x: Vec<char>| x@)
}

/// The character sequences held by a sequence of strings.
pub open spec fn string_views(v: Seq<String>) -> Seq<Seq<char>> {
    v.map_values(|x: String| x@)
}

/// The character sequences held by a sequence of string slices.
pub open spec fn str_views(v: Seq<&str>) -> Seq<Seq<char>> {
    v.map_values(|x: &str| x@)
}

/// The strings made of the given character vectors, in order.
pub fn strings_of(v: &Vec<Vec<char>>) -> (out: Vec<String>)
    ensures
        string_views(out@) == views(v@),
{
    let mut out: Vec<String> = Vec::new();
    for i in 0..v.len()
        invariant
            string_views(out@) == views(v@.take(i as int)),
    {
        let s = string_of(&v[i]);
        let ghost before = out@;
        proof {
            assert(v@.take(i + 1) =~= v@.take(i as int).push(v@[i as int]));
            assert(views(v@.take(i + 1)) =~= views(v@.take(i as int)).push(v@[i as int]@));
        }
        out.push(s);
        proof {
            assert(out@ =~= before.push(s));
            assert(string_views(out@) =~= string_views(before).push(s@));
        }
    }
    proof {
        assert(v@.take(v.len() as int) =~= v@);
    }
    out
}

/// Appends the characters of `t` to `s`.
pub fn append_chars(s: &mut Vec<char>, t: &Vec<char>)
    ensures
        final(s)@ == old(s)@ + t@,
{
    for i in 0..t.len()
        invariant
            s@ == old(s)@ + t@.take(i as int),
    {
        s.push(t[i]);
        proof {
            assert(t@.take(i + 1) =~= t@.take(i as int).push(t@[i as int]));
        }
    }
    proof {
        assert(t@.take(t.len() as int) =~= t@);
    }
}

/// The characters of `s`, in order.
pub fn chars_of(s: &str) -> (v: Vec<char>)
    ensures
        v@ == s@,
{
    let mut v: Vec<char> = Vec::new();
    for c in it: s.chars()
        invariant
            v@ == it.seq().take(it.index() as int),
            it.seq() == s@,
    {
        v.push(c);
    }
    v
}

/// `String::push`: appends one character at the end of `s`.
#[verifier::external_body]
fn push_char(s: &mut String, c: char)
    ensures
        final(s)@ == old(s)@.push(c),
{
    s.push(c);
}

/// The string made of the characters of `v`, in order.
pub fn string_of(v: &Vec<char>) -> (s: String)
    ensures
        s@ == v@,
{
    let mut s = String::new();
    for i in 0..v.len()
        invariant
            s@ == v@.take(i as int),
    {
        push_char(&mut s, v[i]);
    }
    s
}

// ---------------------------------------------------------------------------
// Character classes of the standard library
// ---------------------------------------------------------------------------

/// Whether the non-ASCII character `c` is alphabetic or numeric in the sense
/// of Unicode (`char::is_alphanumeric` beyond ASCII).
pub uninterp spec fn non_ascii_is_alphanumeric(c: char) -> bool;

/// Whether `c` is alphabetic or numeric in the sense of Unicode
/// (`char::is_alphanumeric`): among ASCII characters, the letters and digits.
pub open spec fn char_is_alphanumeric(c: char) -> bool {
    if c <= '\u{7f}' {
        is_ascii_letter_or_digit(c)
    } else {
        non_ascii_is_alphanumeric(c)
    }
}

/// Whether `c` has the Unicode `White_Space` property (`char::is_whitespace`):
/// tab, line feed, vertical tab, form feed, carriage return, space, next line,
/// no-break space, ogham space mark, the spaces U+2000 to U+200A, line
/// separator, paragraph separator, narrow no-break space, medium mathematical
/// space and ideographic space.
pub open spec fn char_is_whitespace(c: char) -> bool {
    ||| '\t' <= c && c <= '\r'
    ||| c == ' '
    ||| c == '\u{85}'
    ||| c == '\u{a0}'
    ||| c == '\u{1680}'
    ||| '\u{2000}' <= c && c <= '\u{200a}'
    ||| c == '\u{2028}'
    ||| c == '\u{2029}'
    ||| c == '\u{202f}'
    ||| c == '\u{205f}'
    ||| c == '\u{3000}'
}

/// ASCII letters and digits.
pub open spec fn is_ascii_letter_or_digit(c: char) -> bool {
    ('a' <= c && c <= 'z') || ('A' <= c && c <= 'Z') || ('0' <= c && c <= '9')
}

/// Whether `c` is white space (`char::is_whitespace`).
pub fn is_whitespace(c: char) -> (b: bool)
    ensures
        b == char_is_whitespace(c),
{
    ('\t' <= c && c <= '\r') || c == ' ' || c == '\u{85}' || c == '\u{a0}' || c == '\u{1680}' || (
    '\u{2000}' <= c && c <= '\u{200a}') || c == '\u{2028}' || c == '\u{2029}' || c == '\u{202f}'
        || c == '\u{205f}' || c == '\u{3000}'
}

/// `char::is_alphanumeric`: on ASCII characters it holds exactly of letters
/// and digits; beyond ASCII its result is named by `non_ascii_is_alphanumeric`,
/// and nothing more is stated of it.
#[verifier::external_body]
pub(crate) fn is_alphanumeric(c: char) -> (b: bool)
    ensures
        b == char_is_alphanumeric(c),
        c > '\u{7f}' ==> b == non_ascii_is_alphanumeric(c),
{
    c.is_alphanumeric()
}

// ---------------------------------------------------------------------------
// Trimming white space
// ---------------------------------------------------------------------------

/// `s` without its leading white space.
pub open spec fn trim_start_ws(s: Seq<char>) -> Seq<char>
    decreases s.len(),
{
    if s.len() > 0 && char_is_whitespace(s[0]) {
        trim_start_ws(s.drop_first())
    } else {
        s
    }
}

/// `s` without its trailing white space (`str::trim_end`).
pub open spec fn trim_end_ws(s: Seq<char>) -> Seq<char>
    decreases s.len(),
{
    if s.len() > 0 && char_is_whitespace(s.last()) {
        trim_end_ws(s.drop_last())
    } else {
        s
    }
}

/// `s` without leading and trailing white space (`str::trim`).
pub open spec fn trim_ws(s: Seq<char>) -> Seq<char> {
    trim_end_ws(trim_start_ws(s))
}

proof fn lemma_trim_start_at(s: Seq<char>, i: int)
    requires
        0 <= i <= s.len(),
        forall|k: int| 0 <= k < i ==> char_is_whitespace(#[trigger] s[k]),
        i == s.len() || !char_is_whitespace(s[i]),
    ensures
        trim_start_ws(s) == s.subrange(i, s.len() as int),
    decreases i,
{
    if i == 0 {
        assert(s.subrange(0, s.len() as int) =~= s);
    } else {
        let t = s.drop_first();
        assert forall|k: int| 0 <= k < i - 1 implies char_is_whitespace(#[trigger] t[k]) by {
            assert(t[k] == s[k + 1]);
        }
        lemma_trim_start_at(t, i - 1);
        assert(t.subrange(i - 1, t.len() as int) =~= s.subrange(i, s.len() as int));
    }
}

proof fn lemma_trim_end_at(s: Seq<char>, j: int)
    requires
        0 <= j <= s.len(),
        forall|k: int| j <= k < s.len() ==> char_is_whitespace(#[trigger] s[k]),
        j == 0 || !char_is_whitespace(s[j - 1]),
    ensures
        trim_end_ws(s) == s.subrange(0, j),
    decreases s.len() - j,
{
    if j == s.len() {
        assert(s.subrange(0, j) =~= s);
    } else {
        let t = s.drop_last();
        assert forall|k: int| j <= k < t.len() implies char_is_whitespace(#[trigger] t[k]) by {
            assert(t[k] == s[k]);
        }
        lemma_trim_end_at(t, j);
        assert(t.subrange(0, j) =~= s.subrange(0, j));
    }
}

/// The characters of `s` without trailing white space.
pub fn trim_end_chars(s: &Vec<char>) -> (t: Vec<char>)
    ensures
        t@ == trim_end_ws(s@),
{
    let mut j = s.len();
    while j > 0 && is_whitespace(s[j - 1])
        invariant
            j <= s.len(),
            forall|k: int| j <= k < s.len() ==> char_is_whitespace(#[trigger] s@[k]),
        decreases j,
    {
        j = j - 1;
    }
    proof {
        lemma_trim_end_at(s@, j as int);
    }
    let mut t: Vec<char> = Vec::new();
    for i in 0..j
        invariant
            j <= s.len(),
            t@ == s@.subrange(0, i as int),
    {
        t.push(s[i]);
    }
    t
}

/// The characters of `s` without leading and trailing white space.
pub fn trim_chars(s: &Vec<char>) -> (t: Vec<char>)
    ensures
        t@ == trim_ws(s@),
{
    let mut i: usize = 0;
    while i < s.len() && is_whitespace(s[i])
        invariant
            i <= s.len(),
            forall|k: int| 0 <= k < i ==> char_is_whitespace(#[trigger] s@[k]),
        decreases s.len() - i,
    {
        i = i + 1;
    }
    proof {
        lemma_trim_start_at(s@, i as int);
    }
    let mut rest: Vec<char> = Vec::new();
    for k in i..s.len()
        invariant
            i <= s.len(),
            rest@ == s@.subrange(i as int, k as int),
    {
        rest.push(s[k]);
    }
    trim_end_chars(&rest)
}

// ---------------------------------------------------------------------------
// UTF-8 length
// ---------------------------------------------------------------------------

/// The number of bytes of the UTF-8 encoding of `c` (`char::len_utf8`).
pub open spec fn utf8_width(c: char) -> nat {
    if (c as u32) <= 0x7f {
        1
    } else if (c as u32) <= 0x7ff {
        2
    } else if (c as u32) <= 0xffff {
        3
    } else {
        4
    }
}

proof fn lemma_encode_utf8_push(s: Seq<char>, c: char)
    ensures
        vstd::utf8::encode_utf8(s.push(c)).len() == vstd::utf8::encode_utf8(s).len() + utf8_width(c),
    decreases s.len(),
{
    broadcast use vstd::utf8::char_is_scalar;
    assert(vstd::utf8::is_scalar(c as u32));
    assert(vstd::utf8::encode_scalar(c as u32).len() == utf8_width(c));
    if s.len() == 0 {
        assert(s.push(c).drop_first() =~= Seq::<char>::empty());
        assert(vstd::utf8::encode_utf8(Seq::<char>::empty()) =~= Seq::<u8>::empty());
    } else {
        assert(s.push(c).drop_first() =~= s.drop_first().push(c));
        lemma_encode_utf8_push(s.drop_first(), c);
    }
}

/// Whether the UTF-8 encoding of `s` (what `str::len` counts) is shorter than `n` bytes.
pub fn utf8_len_below(s: &Vec<char>, n: usize) -> (b: bool)
    ensures
        b == (vstd::utf8::encode_utf8(s@).len() < n),
{
    if n == 0 {
        return false;
    }
    let mut total: usize = 0;
    let mut i: usize = 0;
    while i < s.len()
        invariant
            i <= s.len(),
            total as nat == vstd::utf8::encode_utf8(s@.take(i as int)).len(),
            total < n,
        decreases s.len() - i,
    {
        let c = s[i];
        let w: usize = if (c as u32) <= 0x7f {
            1
        } else if (c as u32) <= 0x7ff {
            2
        } else if (c as u32) <= 0xffff {
            3
        } else {
            4
        };
        proof {
            assert(s@.take(i + 1) =~= s@.take(i as int).push(c));
            lemma_encode_utf8_push(s@.take(i as int), c);
        }
        if w >= n - total {
            proof {
                lemma_encode_utf8_prefix_le(s@, i + 1);
            }
            return false;
        }
        total = total + w;
        i = i + 1;
    }
    proof {
        assert(s@.take(s.len() as int) =~= s@);
    }
    true
}

proof fn lemma_encode_utf8_prefix_le(s: Seq<char>, k: int)
    requires
        0 <= k <= s.len(),
    ensures
        vstd::utf8::encode_utf8(s.take(k)).len() <= vstd::utf8::encode_utf8(s).len(),
    decreases s.len() - k,
{
    if k == s.len() {
        assert(s.take(k) =~= s);
    } else {
        lemma_encode_utf8_prefix_le(s, k + 1);
        assert(s.take(k + 1) =~= s.take(k).push(s[k]));
        lemma_encode_utf8_push(s.take(k), s[k]);
    }
}

} // verus!
