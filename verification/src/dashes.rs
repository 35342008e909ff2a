//! Squeezing runs of dashes, as the page addresses need it.
use vstd::prelude::*;

verus! {

/// Whether `s` holds two dashes in a row.
pub open spec fn has_double_dash(s: Seq<char>) -> bool {
    exists|k: int| 0 <= k < s.len() - 1 && #[trigger] s[k] == '-' && s[k + 1] == '-'
}

/// Whether `s` starts with two dashes.
pub open spec fn starts_with_double_dash(s: Seq<char>) -> bool {
    s.len() >= 2 && s[0] == '-' && s[1] == '-'
}

/// `s` with every run of dashes squeezed into one dash.
pub open spec fn squeeze_dashes(s: Seq<char>) -> Seq<char>
    decreases s.len(),
{
    if s.len() == 0 {
        seq![]
    } else if starts_with_double_dash(s) {
        squeeze_dashes(s.skip(1))
    } else {
        seq![s[0]] + squeeze_dashes(s.skip(1))
    }
}

/// `s` with each pair of dashes, read from the left without overlap, replaced
/// by one dash (`str::replace("--", "-")`).
pub open spec fn halve_dash_pairs(s: Seq<char>) -> Seq<char>
    decreases s.len(),
{
    if s.len() == 0 {
        seq![]
    } else if starts_with_double_dash(s) {
        seq!['-'] + halve_dash_pairs(s.skip(2))
    } else {
        seq![s[0]] + halve_dash_pairs(s.skip(1))
    }
}

proof fn lemma_halve_first(s: Seq<char>)
    ensures
        halve_dash_pairs(s).len() <= s.len(),
        (halve_dash_pairs(s).len() == 0) == (s.len() == 0),
        s.len() > 0 ==> halve_dash_pairs(s)[0] == s[0],
    decreases s.len(),
{
    if s.len() > 0 {
        if starts_with_double_dash(s) {
            lemma_halve_first(s.skip(2));
        } else {
            lemma_halve_first(s.skip(1));
        }
    }
}

proof fn lemma_squeeze_dash_front(x: Seq<char>)
    ensures
        squeeze_dashes(seq!['-'] + x) == if x.len() > 0 && x[0] == '-' {
            squeeze_dashes(x)
        } else {
            seq!['-'] + squeeze_dashes(x)
        },
{
    let s = seq!['-'] + x;
    assert(s.skip(1) =~= x);
}

/// Halving the pairs of dashes does not change the squeezed text.
pub proof fn squeeze_absorbs_halving(s: Seq<char>)
    ensures
        squeeze_dashes(halve_dash_pairs(s)) == squeeze_dashes(s),
    decreases s.len(),
{
    if s.len() == 0 {
    } else if starts_with_double_dash(s) {
        let s2 = s.skip(2);
        squeeze_absorbs_halving(s2);
        lemma_halve_first(s2);
        lemma_squeeze_dash_front(halve_dash_pairs(s2));
        lemma_squeeze_dash_front(s2);
        assert(s.skip(1) =~= seq!['-'] + s2);
    } else {
        let s1 = s.skip(1);
        squeeze_absorbs_halving(s1);
        lemma_halve_first(s1);
        let h = seq![s[0]] + halve_dash_pairs(s1);
        assert(h.skip(1) =~= halve_dash_pairs(s1));
        assert(!starts_with_double_dash(h));
    }
}

/// A text without two dashes in a row is its own squeezed form.
pub proof fn squeeze_without_double_dash(s: Seq<char>)
    requires
        !has_double_dash(s),
    ensures
        squeeze_dashes(s) == s,
    decreases s.len(),
{
    if s.len() > 0 {
        let s1 = s.skip(1);
        assert(!starts_with_double_dash(s)) by {
            if starts_with_double_dash(s) {
                assert(s[0] == '-' && s[1] == '-');
            }
        }
        assert(!has_double_dash(s1)) by {
            if has_double_dash(s1) {
                let k = choose|k: int| 0 <= k < s1.len() - 1 && #[trigger] s1[k] == '-' && s1[k + 1] == '-';
                assert(s[k + 1] == '-' && s[k + 2] == '-');
            }
        }
        squeeze_without_double_dash(s1);
        assert(seq![s[0]] + s1 =~= s);
    }
}

/// A squeezed text holds no two dashes in a row.
pub proof fn squeeze_dashes_no_double(s: Seq<char>)
    ensures
        !has_double_dash(squeeze_dashes(s)),
        squeeze_dashes(s).len() > 0 ==> s.len() > 0 && (squeeze_dashes(s)[0] == '-' <==> s[0]
            == '-'),
    decreases s.len(),
{
    if s.len() > 0 {
        let s1 = s.skip(1);
        squeeze_dashes_no_double(s1);
        let q1 = squeeze_dashes(s1);
        if !starts_with_double_dash(s) {
            let q = seq![s[0]] + q1;
            assert forall|k: int| 0 <= k < q.len() - 1 implies !(#[trigger] q[k] == '-' && q[k
                + 1] == '-') by {
                if k == 0 {
                    assert(q[1] == q1[0]);
                } else {
                    assert(q[k] == q1[k - 1] && q[k + 1] == q1[k]);
                }
            }
        }
    }
}

/// A text holding two dashes in a row gets shorter when its pairs are halved.
pub proof fn halving_shortens(s: Seq<char>)
    requires
        has_double_dash(s),
    ensures
        halve_dash_pairs(s).len() < s.len(),
    decreases s.len(),
{
    if starts_with_double_dash(s) {
        lemma_halve_first(s.skip(2));
    } else {
        let s1 = s.skip(1);
        assert(has_double_dash(s1)) by {
            let k = choose|k: int| 0 <= k < s.len() - 1 && #[trigger] s[k] == '-' && s[k + 1] == '-';
            if k == 0 {
                assert(starts_with_double_dash(s));
            }
            assert(s1[k - 1] == '-' && s1[k] == '-');
        }
        halving_shortens(s1);
    }
}

/// Whether the characters of `s` hold two dashes in a row (`str::contains("--")`).
pub fn contains_double_dash(s: &Vec<char>) -> (b: bool)
    ensures
        b == has_double_dash(s@),
{
    if s.len() < 2 {
        return false;
    }
    for k in 0..s.len() - 1
        invariant
            s.len() >= 2,
            forall|m: int| 0 <= m < k ==> !(#[trigger] s@[m] == '-' && s@[m + 1] == '-'),
    {
        if s[k] == '-' && s[k + 1] == '-' {
            return true;
        }
    }
    false
}

/// The characters of `s` with each pair of dashes replaced by one dash.
pub fn halve_dashes(s: &Vec<char>) -> (out: Vec<char>)
    ensures
        out@ == halve_dash_pairs(s@),
{
    let mut out: Vec<char> = Vec::new();
    let mut i: usize = 0;
    proof {
        assert(s@.skip(0) =~= s@);
        assert(out@ + halve_dash_pairs(s@) =~= halve_dash_pairs(s@));
    }
    while i < s.len()
        invariant
            i <= s.len(),
            out@ + halve_dash_pairs(s@.skip(i as int)) == halve_dash_pairs(s@),
        decreases s.len() - i,
    {
        let ghost rest = s@.skip(i as int);
        if i + 1 < s.len() && s[i] == '-' && s[i + 1] == '-' {
            proof {
                assert(starts_with_double_dash(rest));
                assert(rest.skip(2) =~= s@.skip(i + 2));
                assert(out@.push('-') + halve_dash_pairs(s@.skip(i + 2)) =~= out@ + halve_dash_pairs(rest));
            }
            out.push('-');
            i = i + 2;
        } else {
            proof {
                assert(!starts_with_double_dash(rest));
                assert(rest.skip(1) =~= s@.skip(i + 1));
                assert(out@.push(s@[i as int]) + halve_dash_pairs(s@.skip(i + 1)) =~= out@
                    + halve_dash_pairs(rest));
            }
            out.push(s[i]);
            i = i + 1;
        }
    }
    proof {
        assert(s@.skip(s.len() as int) =~= Seq::<char>::empty());
        assert(out@ + Seq::<char>::empty() =~= out@);
    }
    out
}

/// Halves the pairs of dashes of `s` over and over while it holds two dashes
/// in a row; this ends with every run of dashes squeezed into one.
pub fn squeeze_double_dashes(s: Vec<char>) -> (out: Vec<char>)
    ensures
        out@ == squeeze_dashes(s@),
        !has_double_dash(out@),
{
    let mut url = s;
    while contains_double_dash(&url)
        invariant
            squeeze_dashes(url@) == squeeze_dashes(s@),
        decreases url@.len(),
    {
        proof {
            halving_shortens(url@);
            squeeze_absorbs_halving(url@);
        }
        url = halve_dashes(&url);
    }
    proof {
        squeeze_without_double_dash(url@);
    }
    url
}

} // verus!
