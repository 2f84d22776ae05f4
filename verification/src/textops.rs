//! Character-sequence utilities for rich-text normalization: pattern search,
//! literal replacement, markup-tag stripping, newline collapsing, whitespace
//! trimming and splitting.

use vstd::prelude::*;

verus! {

/// A character with the Unicode `White_Space` property.
pub open spec fn is_space_char(c: char) -> bool {
    c == ' ' || c == '\t' || c == '\n' || c == '\u{b}' || c == '\u{c}' || c == '\r'
        || c == '\u{85}' || c == '\u{a0}' || c == '\u{1680}'
        || c == '\u{2000}' || c == '\u{2001}' || c == '\u{2002}' || c == '\u{2003}'
        || c == '\u{2004}' || c == '\u{2005}' || c == '\u{2006}' || c == '\u{2007}'
        || c == '\u{2008}' || c == '\u{2009}' || c == '\u{200a}'
        || c == '\u{2028}' || c == '\u{2029}' || c == '\u{202f}' || c == '\u{205f}'
        || c == '\u{3000}'
}

/// Runtime test for [`is_space_char`].
pub fn space_char(c: char) -> (r: bool)
    ensures
        r == is_space_char(c),
{
    c == ' ' || c == '\t' || c == '\n' || c == '\u{b}' || c == '\u{c}' || c == '\r'
        || c == '\u{85}' || c == '\u{a0}' || c == '\u{1680}'
        || c == '\u{2000}' || c == '\u{2001}' || c == '\u{2002}' || c == '\u{2003}'
        || c == '\u{2004}' || c == '\u{2005}' || c == '\u{2006}' || c == '\u{2007}'
        || c == '\u{2008}' || c == '\u{2009}' || c == '\u{200a}'
        || c == '\u{2028}' || c == '\u{2029}' || c == '\u{202f}' || c == '\u{205f}'
        || c == '\u{3000}'
}

/// `pat` occurs in `s` at position `i`.
pub open spec fn match_at(s: Seq<char>, pat: Seq<char>, i: int) -> bool {
    0 <= i && i + pat.len() <= s.len() && s.subrange(i, i + pat.len()) =~= pat
}

/// `pat` occurs somewhere in `s` at or after position `from`.
pub open spec fn occurs_from(s: Seq<char>, pat: Seq<char>, from: int) -> bool {
    exists|i: int| from <= i && match_at(s, pat, i)
}

/// `pat` occurs somewhere in `s`.
pub open spec fn occurs(s: Seq<char>, pat: Seq<char>) -> bool {
    occurs_from(s, pat, 0)
}

/// Whether `pat` occurs at position `i` of `s`.
pub fn check_match_at(s: &Vec<char>, pat: &Vec<char>, i: usize) -> (r: bool)
    requires
        i <= s@.len(),
    ensures
        r == match_at(s@, pat@, i as int),
{
    if s.len() - i < pat.len() {
        proof {
            assert(!match_at(s@, pat@, i as int));
        }
        return false;
    }
    let end: usize = i + pat.len();
    let mut k: usize = 0;
    while k < pat.len()
        invariant
            end == i + pat@.len(),
            end <= s@.len(),
            k <= pat@.len(),
            forall|j: int| 0 <= j < k ==> s@[i + j] == pat@[j],
        decreases pat@.len() - k,
    {
        if s[i + k] != pat[k] {
            proof {
                assert(s@.subrange(i as int, i + pat@.len())[k as int] == s@[i + k]);
                assert(!match_at(s@, pat@, i as int));
            }
            return false;
        }
        k = k + 1;
    }
    proof {
        assert(s@.subrange(i as int, i + pat@.len()) =~= pat@);
    }
    true
}

/// The first position at or after `from` where `pat` occurs in `s`, if any.
pub open spec fn spec_find(s: Seq<char>, pat: Seq<char>, from: int) -> Option<int>
    decreases s.len() - from,
{
    if from < 0 || from + pat.len() > s.len() {
        None
    } else if match_at(s, pat, from) {
        Some(from)
    } else {
        spec_find(s, pat, from + 1)
    }
}

/// What `spec_find` returns is a first occurrence: an occurrence, before which
/// there is none (at or after `from`); `None` means there is none at all.
pub proof fn lemma_find_props(s: Seq<char>, pat: Seq<char>, from: int)
    requires
        0 <= from,
    ensures
        match spec_find(s, pat, from) {
            Some(i) => from <= i && match_at(s, pat, i) && forall|j: int|
                from <= j < i ==> !match_at(s, pat, j),
            None => !occurs_from(s, pat, from),
        },
    decreases s.len() - from,
{
    if from + pat.len() > s.len() {
        assert forall|i: int| from <= i implies !match_at(s, pat, i) by {}
    } else if match_at(s, pat, from) {
    } else {
        lemma_find_props(s, pat, from + 1);
        if spec_find(s, pat, from + 1) is None {
            assert forall|i: int| from <= i implies !match_at(s, pat, i) by {
                if i > from {
                    assert(!match_at(s, pat, i));
                }
            }
        }
    }
}

/// Scan for the first occurrence of `pat` at or after `from`.
pub fn find_pattern(s: &Vec<char>, pat: &Vec<char>, from: usize) -> (r: Option<usize>)
    ensures
        match r {
            Some(i) => from <= i && Some(i as int) == spec_find(s@, pat@, from as int),
            None => spec_find(s@, pat@, from as int) is None,
        },
{
    if from > s.len() || pat.len() > s.len() - from {
        return None;
    }
    let mut i: usize = from;
    while s.len() - i >= pat.len()
        invariant
            from <= i,
            i <= s@.len(),
            spec_find(s@, pat@, from as int) == spec_find(s@, pat@, i as int),
        decreases s@.len() - i,
    {
        if check_match_at(s, pat, i) {
            return Some(i);
        }
        i = i + 1;
    }
    None
}

/// Replace every occurrence of `pat` by `rep`, scanning left to right without
/// overlap, as `str::replace` does.
pub open spec fn spec_replace(s: Seq<char>, pat: Seq<char>, rep: Seq<char>) -> Seq<char>
    decreases s.len(),
    when pat.len() > 0
{
    if s.len() < pat.len() {
        s
    } else if s.subrange(0, pat.len() as int) =~= pat {
        rep + spec_replace(s.skip(pat.len() as int), pat, rep)
    } else {
        seq![s[0]] + spec_replace(s.skip(1), pat, rep)
    }
}

/// One unfolding of `spec_replace` at the scan position `i` of `s`.
proof fn lemma_replace_step(s: Seq<char>, pat: Seq<char>, rep: Seq<char>, i: int)
    requires
        pat.len() > 0,
        0 <= i <= s.len(),
    ensures
        match_at(s, pat, i) ==> spec_replace(s.skip(i), pat, rep) =~= rep + spec_replace(
            s.skip(i + pat.len()),
            pat,
            rep,
        ),
        (!match_at(s, pat, i) && i < s.len()) ==> spec_replace(s.skip(i), pat, rep) =~= seq![
            s[i],
        ] + spec_replace(s.skip(i + 1), pat, rep),
{
    let t = s.skip(i);
    if match_at(s, pat, i) {
        assert(t.subrange(0, pat.len() as int) =~= s.subrange(i, i + pat.len()));
        assert(t.skip(pat.len() as int) =~= s.skip(i + pat.len()));
    } else if i < s.len() {
        if t.len() >= pat.len() {
            assert(t.subrange(0, pat.len() as int) =~= s.subrange(i, i + pat.len()));
        }
        assert(t.skip(1) =~= s.skip(i + 1));
        assert(t[0] == s[i]);
    }
}

/// Replace every occurrence of `pat` by `rep`, left to right without overlap.
pub fn replace_all(s: &Vec<char>, pat: &Vec<char>, rep: &Vec<char>) -> (r: Vec<char>)
    requires
        pat@.len() > 0,
    ensures
        r@ == spec_replace(s@, pat@, rep@),
{
    let mut out: Vec<char> = Vec::new();
    let mut i: usize = 0;
    proof {
        assert(s@.skip(0) =~= s@);
        assert(out@ + spec_replace(s@, pat@, rep@) =~= spec_replace(s@, pat@, rep@));
    }
    while i < s.len()
        invariant
            pat@.len() > 0,
            i <= s@.len(),
            out@ + spec_replace(s@.skip(i as int), pat@, rep@) =~= spec_replace(s@, pat@, rep@),
        decreases s@.len() - i,
    {
        if check_match_at(s, pat, i) {
            proof {
                lemma_replace_step(s@, pat@, rep@, i as int);
            }
            let mut k: usize = 0;
            let ghost out0 = out@;
            while k < rep.len()
                invariant
                    k <= rep@.len(),
                    out@ =~= out0 + rep@.subrange(0, k as int),
                decreases rep@.len() - k,
            {
                let c = rep[k];
                proof {
                    assert(out0 + rep@.subrange(0, k + 1) =~= (out0 + rep@.subrange(
                        0,
                        k as int,
                    )).push(c));
                }
                out.push(c);
                k = k + 1;
            }
            proof {
                assert(rep@.subrange(0, rep@.len() as int) =~= rep@);
                assert(out@ + spec_replace(s@.skip(i + pat@.len()), pat@, rep@) =~= out0 + (rep@
                    + spec_replace(s@.skip(i + pat@.len()), pat@, rep@)));
            }
            i = i + pat.len();
        } else {
            proof {
                lemma_replace_step(s@, pat@, rep@, i as int);
                assert(out@.push(s@[i as int]) + spec_replace(s@.skip(i + 1), pat@, rep@)
                    =~= out@ + (seq![s@[i as int]] + spec_replace(s@.skip(i + 1), pat@, rep@)));
            }
            let c = s[i];
            out.push(c);
            i = i + 1;
        }
    }
    proof {
        assert(s@.skip(s@.len() as int) =~= Seq::<char>::empty());
        assert(spec_replace(Seq::<char>::empty(), pat@, rep@) =~= Seq::<char>::empty());
        assert(out@ + Seq::<char>::empty() =~= out@);
    }
    out
}

/// Append `src[a..b]` to `out`.
pub fn extend_range(out: &mut Vec<char>, src: &Vec<char>, a: usize, b: usize)
    requires
        a <= b <= src@.len(),
    ensures
        final(out)@ == old(out)@ + src@.subrange(a as int, b as int),
{
    let ghost out0 = out@;
    let mut k: usize = a;
    while k < b
        invariant
            a <= k <= b <= src@.len(),
            out@ =~= out0 + src@.subrange(a as int, k as int),
        decreases b - k,
    {
        let c = src[k];
        proof {
            assert(out0 + src@.subrange(a as int, k + 1) =~= (out0 + src@.subrange(
                a as int,
                k as int,
            )).push(c));
        }
        out.push(c);
        k = k + 1;
    }
    proof {
        assert(out@ =~= out0 + src@.subrange(a as int, b as int));
    }
}

/// Drop every markup tag: from each `<` up to the next `>`, characters are
/// skipped; a `>` outside a tag is also skipped; everything else is kept.
/// `inside` is the scanner's state: whether it stands inside a tag.
pub open spec fn spec_strip_tags(s: Seq<char>, inside: bool) -> Seq<char>
    decreases s.len(),
{
    if s.len() == 0 {
        Seq::empty()
    } else if s[0] == '<' {
        spec_strip_tags(s.skip(1), true)
    } else if s[0] == '>' {
        spec_strip_tags(s.skip(1), false)
    } else if inside {
        spec_strip_tags(s.skip(1), inside)
    } else {
        seq![s[0]] + spec_strip_tags(s.skip(1), false)
    }
}

/// Remove every remaining markup tag from `s`.
pub fn strip_tags(s: &Vec<char>) -> (r: Vec<char>)
    ensures
        r@ == spec_strip_tags(s@, false),
{
    let mut out: Vec<char> = Vec::new();
    let mut inside: bool = false;
    let mut i: usize = 0;
    proof {
        assert(s@.skip(0) =~= s@);
        assert(out@ + spec_strip_tags(s@, false) =~= spec_strip_tags(s@, false));
    }
    while i < s.len()
        invariant
            i <= s@.len(),
            out@ + spec_strip_tags(s@.skip(i as int), inside) =~= spec_strip_tags(s@, false),
        decreases s@.len() - i,
    {
        let c = s[i];
        proof {
            assert(s@.skip(i as int)[0] == s@[i as int]);
            assert(s@.skip(i as int).skip(1) =~= s@.skip(i + 1));
        }
        if c == '<' {
            inside = true;
        } else if c == '>' {
            inside = false;
        } else if !inside {
            proof {
                assert(out@.push(c) + spec_strip_tags(s@.skip(i + 1), inside) =~= out@ + (seq![c]
                    + spec_strip_tags(s@.skip(i + 1), inside)));
            }
            out.push(c);
        }
        i = i + 1;
    }
    proof {
        assert(s@.skip(s@.len() as int) =~= Seq::<char>::empty());
        assert(out@ + Seq::<char>::empty() =~= out@);
    }
    out
}

/// Keep at most two newlines of every newline run. `run` is the number of
/// consecutive newlines immediately before the scan position.
pub open spec fn spec_collapse_nl(s: Seq<char>, run: int) -> Seq<char>
    decreases s.len(),
{
    if s.len() == 0 {
        Seq::empty()
    } else if s[0] == '\n' {
        if run < 2 {
            seq!['\n'] + spec_collapse_nl(s.skip(1), run + 1)
        } else {
            spec_collapse_nl(s.skip(1), run + 1)
        }
    } else {
        seq![s[0]] + spec_collapse_nl(s.skip(1), 0)
    }
}

/// No three consecutive newlines occur in `s`.
pub open spec fn no_triple_newline(s: Seq<char>) -> bool {
    forall|i: int|
        0 <= i && i + 2 < s.len() ==> !(#[trigger] s[i] == '\n' && s[i + 1] == '\n' && s[i + 2]
            == '\n')
}

/// The length of the newline prefix of `s`.
pub open spec fn leading_newlines(s: Seq<char>) -> int
    decreases s.len(),
{
    if s.len() == 0 || s[0] != '\n' {
        0
    } else {
        1 + leading_newlines(s.skip(1))
    }
}

/// The newline-prefix length is never negative.
pub proof fn lemma_leading_nonneg(s: Seq<char>)
    ensures
        leading_newlines(s) >= 0,
    decreases s.len(),
{
    if s.len() > 0 && s[0] == '\n' {
        lemma_leading_nonneg(s.skip(1));
    }
}

/// Newline collapsing leaves no run of three or more newlines: its result
/// starts with at most `2 - run` newlines and contains no triple newline.
pub proof fn lemma_collapse_no_triple(s: Seq<char>, run: int)
    requires
        0 <= run,
    ensures
        no_triple_newline(spec_collapse_nl(s, run)),
        leading_newlines(spec_collapse_nl(s, run)) <= if run < 2 {
            2 - run
        } else {
            0
        },
    decreases s.len(),
{
    if s.len() == 0 {
    } else if s[0] == '\n' {
        lemma_collapse_no_triple(s.skip(1), run + 1);
        let rest = spec_collapse_nl(s.skip(1), run + 1);
        if run < 2 {
            let out = seq!['\n'] + rest;
            assert(out[0] == '\n');
            assert(out.skip(1) =~= rest);
            assert forall|i: int|
                0 <= i && i + 2 < out.len() implies !(#[trigger] out[i] == '\n' && out[i + 1]
                == '\n' && out[i + 2] == '\n') by {
                if i == 0 {
                    if out[0] == '\n' && out[1] == '\n' && out[2] == '\n' {
                        assert(rest[0] == '\n' && rest[1] == '\n');
                        assert(rest.skip(1)[0] == rest[1]);
                        lemma_leading_nonneg(rest.skip(1).skip(1));
                        assert(leading_newlines(rest.skip(1)) >= 1);
                        assert(leading_newlines(rest) == 1 + leading_newlines(rest.skip(1)));
                        assert(false);
                    }
                } else {
                    assert(rest[i - 1] == out[i] && rest[i] == out[i + 1] && rest[i + 1] == out[i
                        + 2]);
                }
            }
        }
    } else {
        lemma_collapse_no_triple(s.skip(1), 0);
        let rest = spec_collapse_nl(s.skip(1), 0);
        let out = seq![s[0]] + rest;
        assert(out[0] != '\n');
        assert forall|i: int|
            0 <= i && i + 2 < out.len() implies !(#[trigger] out[i] == '\n' && out[i + 1] == '\n'
            && out[i + 2] == '\n') by {
            if i > 0 {
                assert(rest[i - 1] == out[i] && rest[i] == out[i + 1] && rest[i + 1] == out[i + 2]);
            }
        }
    }
}

/// A block of `n` newline characters, for `n` up to two.
pub open spec fn nl_block(n: int) -> Seq<char> {
    if n <= 0 {
        Seq::empty()
    } else if n == 1 {
        seq!['\n']
    } else {
        seq!['\n', '\n']
    }
}

/// The newline prefix never outruns the text.
pub proof fn lemma_leading_le_len(s: Seq<char>)
    ensures
        0 <= leading_newlines(s) <= s.len(),
    decreases s.len(),
{
    if s.len() > 0 && s[0] == '\n' {
        lemma_leading_le_len(s.skip(1));
    }
}

#[via_fn]
proof fn squash_newline_runs_dec(s: Seq<char>) {
    if s.len() > 0 && s[0] == '\n' {
        lemma_leading_le_len(s);
        lemma_leading_nonneg(s.skip(1));
    }
}

/// `s` with every maximal newline run cut to at most two: a run of one or
/// two newlines stays exactly as it is, a run of three or more becomes
/// exactly two.
pub open spec fn squash_newline_runs(s: Seq<char>) -> Seq<char>
    decreases s.len() via squash_newline_runs_dec
{
    if s.len() == 0 {
        Seq::empty()
    } else if s[0] != '\n' {
        seq![s[0]] + squash_newline_runs(s.skip(1))
    } else {
        let r = leading_newlines(s);
        nl_block(
            if r <= 2 {
                r
            } else {
                2
            },
        ) + squash_newline_runs(s.skip(r))
    }
}

/// How many of a leading newline run survive collapsing, when `k` newlines
/// immediately precede it.
pub open spec fn kept_newlines(k: int, lead: int) -> int {
    if k >= 2 {
        0
    } else if lead <= 2 - k {
        lead
    } else {
        2 - k
    }
}

/// Collapsing equals squashing, position by position: after `k` preceding
/// newlines, the leading run contributes its kept part and the rest is
/// squashed run by run.
proof fn lemma_collapse_runs(s: Seq<char>, k: int)
    requires
        0 <= k,
    ensures
        spec_collapse_nl(s, k) =~= nl_block(kept_newlines(k, leading_newlines(s))) + squash_newline_runs(
            s.skip(leading_newlines(s)),
        ),
    decreases s.len(),
{
    lemma_leading_le_len(s);
    if s.len() == 0 {
    } else if s[0] != '\n' {
        lemma_collapse_runs(s.skip(1), 0);
        let lead1 = leading_newlines(s.skip(1));
        lemma_leading_le_len(s.skip(1));
        if lead1 == 0 {
            assert(s.skip(1).skip(0) =~= s.skip(1));
            assert(spec_collapse_nl(s.skip(1), 0) =~= squash_newline_runs(s.skip(1)));
        } else {
            assert(s.skip(1)[0] == '\n');
            assert(spec_collapse_nl(s.skip(1), 0) =~= squash_newline_runs(s.skip(1)));
        }
        assert(s.skip(0) =~= s);
        assert(spec_collapse_nl(s, k) =~= seq![s[0]] + spec_collapse_nl(s.skip(1), 0));
        assert(squash_newline_runs(s) =~= seq![s[0]] + squash_newline_runs(s.skip(1)));
    } else {
        let lead1 = leading_newlines(s.skip(1));
        let lead = leading_newlines(s);
        assert(lead == 1 + lead1);
        lemma_leading_le_len(s.skip(1));
        lemma_collapse_runs(s.skip(1), k + 1);
        assert(s.skip(lead) =~= s.skip(1).skip(lead1));
        if k >= 2 {
            assert(kept_newlines(k + 1, lead1) == 0);
            assert(kept_newlines(k, lead) == 0);
            assert(spec_collapse_nl(s, k) =~= spec_collapse_nl(s.skip(1), k + 1));
        } else if k == 1 {
            assert(kept_newlines(k + 1, lead1) == 0);
            assert(kept_newlines(k, lead) == 1);
            assert(spec_collapse_nl(s, k) =~= seq!['\n'] + spec_collapse_nl(s.skip(1), k + 1));
            assert(seq!['\n'] + (nl_block(0) + squash_newline_runs(s.skip(1).skip(lead1)))
                =~= nl_block(1) + squash_newline_runs(s.skip(lead)));
        } else {
            assert(k == 0);
            assert(spec_collapse_nl(s, k) =~= seq!['\n'] + spec_collapse_nl(s.skip(1), k + 1));
            if lead1 == 0 {
                assert(kept_newlines(1, 0) == 0);
                assert(kept_newlines(0, lead) == 1);
                assert(seq!['\n'] + (nl_block(0) + squash_newline_runs(s.skip(1).skip(lead1)))
                    =~= nl_block(1) + squash_newline_runs(s.skip(lead)));
            } else {
                assert(kept_newlines(1, lead1) == 1);
                assert(kept_newlines(0, lead) == 2);
                assert(seq!['\n'] + (nl_block(1) + squash_newline_runs(s.skip(1).skip(lead1)))
                    =~= nl_block(2) + squash_newline_runs(s.skip(lead)));
            }
        }
    }
}

/// Newline collapsing is exactly run squashing: every maximal run of three
/// or more newlines comes out as exactly two, and runs of one or two come
/// out unchanged.
pub proof fn lemma_collapse_exact_runs(s: Seq<char>)
    ensures
        spec_collapse_nl(s, 0) == squash_newline_runs(s),
{
    lemma_collapse_runs(s, 0);
    let lead = leading_newlines(s);
    lemma_leading_le_len(s);
    if s.len() == 0 {
        assert(spec_collapse_nl(s, 0) =~= squash_newline_runs(s));
    } else if s[0] != '\n' {
        assert(lead == 0);
        assert(s.skip(0) =~= s);
        assert(spec_collapse_nl(s, 0) =~= squash_newline_runs(s));
    } else {
        assert(kept_newlines(0, lead) == (if lead <= 2 {
            lead
        } else {
            2int
        }));
        assert(spec_collapse_nl(s, 0) =~= squash_newline_runs(s));
    }
}

/// Collapse every run of newlines in `s` down to at most two.
pub fn collapse_newlines(s: &Vec<char>) -> (r: Vec<char>)
    ensures
        r@ == spec_collapse_nl(s@, 0),
        r@ == squash_newline_runs(s@),
        no_triple_newline(r@),
{
    let mut out: Vec<char> = Vec::new();
    let mut run: usize = 0;
    let mut i: usize = 0;
    proof {
        assert(s@.skip(0) =~= s@);
        assert(out@ + spec_collapse_nl(s@, 0) =~= spec_collapse_nl(s@, 0));
    }
    while i < s.len()
        invariant
            i <= s@.len(),
            run <= i,
            out@ + spec_collapse_nl(s@.skip(i as int), run as int) =~= spec_collapse_nl(s@, 0),
        decreases s@.len() - i,
    {
        let c = s[i];
        proof {
            assert(s@.skip(i as int)[0] == s@[i as int]);
            assert(s@.skip(i as int).skip(1) =~= s@.skip(i + 1));
        }
        if c == '\n' {
            if run < 2 {
                proof {
                    assert(out@.push(c) + spec_collapse_nl(s@.skip(i + 1), run + 1) =~= out@ + (
                    seq!['\n'] + spec_collapse_nl(s@.skip(i + 1), run + 1)));
                }
                out.push(c);
            }
            run = run + 1;
        } else {
            proof {
                assert(out@.push(c) + spec_collapse_nl(s@.skip(i + 1), 0) =~= out@ + (seq![c]
                    + spec_collapse_nl(s@.skip(i + 1), 0)));
            }
            out.push(c);
            run = 0;
        }
        i = i + 1;
    }
    proof {
        assert(s@.skip(s@.len() as int) =~= Seq::<char>::empty());
        assert(out@ + Seq::<char>::empty() =~= out@);
        lemma_collapse_no_triple(s@, 0);
        lemma_collapse_exact_runs(s@);
    }
    out
}

/// `s` without its leading whitespace.
pub open spec fn spec_trim_start(s: Seq<char>) -> Seq<char>
    decreases s.len(),
{
    if s.len() > 0 && is_space_char(s[0]) {
        spec_trim_start(s.skip(1))
    } else {
        s
    }
}

/// `s` without its trailing whitespace.
pub open spec fn spec_trim_end(s: Seq<char>) -> Seq<char>
    decreases s.len(),
{
    if s.len() > 0 && is_space_char(s.last()) {
        spec_trim_end(s.drop_last())
    } else {
        s
    }
}

/// `s` without leading and trailing whitespace.
pub open spec fn spec_trim(s: Seq<char>) -> Seq<char> {
    spec_trim_end(spec_trim_start(s))
}

/// Remove leading and trailing whitespace.
pub fn trim_chars(s: &Vec<char>) -> (r: Vec<char>)
    ensures
        r@ == spec_trim(s@),
{
    let mut a: usize = 0;
    proof {
        assert(s@.skip(0) =~= s@);
    }
    while a < s.len() && space_char(s[a])
        invariant
            a <= s@.len(),
            spec_trim_start(s@) == spec_trim_start(s@.skip(a as int)),
        decreases s@.len() - a,
    {
        proof {
            assert(s@.skip(a as int)[0] == s@[a as int]);
            assert(s@.skip(a as int).skip(1) =~= s@.skip(a + 1));
        }
        a = a + 1;
    }
    let ghost t = s@.skip(a as int);
    proof {
        if a < s@.len() {
            assert(t[0] == s@[a as int]);
        }
        assert(spec_trim_start(s@) == t);
    }
    let mut b: usize = s.len();
    proof {
        assert(t.take(b - a) =~= t);
    }
    while b > a && space_char(s[b - 1])
        invariant
            a <= b <= s@.len(),
            t =~= s@.skip(a as int),
            spec_trim_end(t) == spec_trim_end(t.take(b - a)),
        decreases b,
    {
        proof {
            let u = t.take(b - a);
            assert(u.last() == s@[b - 1]);
            assert(u.drop_last() =~= t.take(b - 1 - a));
        }
        b = b - 1;
    }
    proof {
        let u = t.take(b - a);
        if b > a {
            assert(u.last() == s@[b - 1]);
        }
        assert(spec_trim_end(u) == u);
    }
    let mut r: Vec<char> = Vec::new();
    extend_range(&mut r, s, a, b);
    proof {
        assert(s@.subrange(a as int, b as int) =~= t.take(b - a));
        assert(r@ =~= Seq::<char>::empty() + s@.subrange(a as int, b as int));
    }
    r
}

/// The length of the maximal non-whitespace prefix of `s`.
pub open spec fn word_len(s: Seq<char>) -> int
    decreases s.len(),
{
    if s.len() == 0 || is_space_char(s[0]) {
        0
    } else {
        1 + word_len(s.skip(1))
    }
}

/// Bounds and content of the maximal non-whitespace prefix.
pub proof fn lemma_word_len(s: Seq<char>)
    ensures
        0 <= word_len(s) <= s.len(),
        s.len() > 0 && !is_space_char(s[0]) ==> word_len(s) >= 1,
        forall|i: int| 0 <= i < word_len(s) ==> !is_space_char(#[trigger] s[i]),
        word_len(s) < s.len() ==> is_space_char(s[word_len(s)]),
    decreases s.len(),
{
    if s.len() == 0 || is_space_char(s[0]) {
    } else {
        lemma_word_len(s.skip(1));
        assert forall|i: int| 0 <= i < word_len(s) implies !is_space_char(#[trigger] s[i]) by {
            if i > 0 {
                assert(s.skip(1)[i - 1] == s[i]);
            }
        }
        if word_len(s) < s.len() {
            assert(s.skip(1)[word_len(s) - 1] == s[word_len(s)]);
        }
    }
}

#[via_fn]
proof fn spec_words_dec(s: Seq<char>) {
    lemma_word_len(s);
}

/// The whitespace-separated words of `s`, in order.
pub open spec fn spec_words(s: Seq<char>) -> Seq<Seq<char>>
    decreases s.len() via spec_words_dec
{
    if s.len() == 0 {
        Seq::empty()
    } else if is_space_char(s[0]) {
        spec_words(s.skip(1))
    } else {
        seq![s.take(word_len(s))] + spec_words(s.skip(word_len(s)))
    }
}

/// Words are nonempty and contain no whitespace.
pub proof fn lemma_words_wordlike(s: Seq<char>)
    ensures
        forall|k: int| 0 <= k < spec_words(s).len() ==> (#[trigger] spec_words(s)[k]).len() >= 1,
        forall|k: int, i: int|
            0 <= k < spec_words(s).len() && 0 <= i < spec_words(s)[k].len() ==> !is_space_char(
                #[trigger] spec_words(s)[k][i],
            ),
    decreases s.len(),
{
    if s.len() == 0 {
    } else if is_space_char(s[0]) {
        lemma_words_wordlike(s.skip(1));
        assert(spec_words(s) == spec_words(s.skip(1)));
        assert forall|k: int| 0 <= k < spec_words(s).len() implies (#[trigger] spec_words(
            s,
        )[k]).len() >= 1 by {
            assert(spec_words(s)[k] == spec_words(s.skip(1))[k]);
        }
        assert forall|k: int, i: int|
            0 <= k < spec_words(s).len() && 0 <= i < spec_words(s)[k].len() implies !is_space_char(
            #[trigger] spec_words(s)[k][i],
        ) by {
            assert(spec_words(s)[k] == spec_words(s.skip(1))[k]);
        }
    } else {
        lemma_word_len(s);
        lemma_words_wordlike(s.skip(word_len(s)));
        let w = s.take(word_len(s));
        let rest = spec_words(s.skip(word_len(s)));
        assert(spec_words(s) =~= seq![w] + rest);
        assert forall|i: int| 0 <= i < w.len() implies !is_space_char(#[trigger] w[i]) by {
            assert(w[i] == s[i]);
        }
        assert forall|k: int| 0 <= k < spec_words(s).len() implies (#[trigger] spec_words(
            s,
        )[k]).len() >= 1 by {
            if k == 0 {
                assert(spec_words(s)[0] == w);
            } else {
                assert(spec_words(s)[k] == rest[k - 1]);
            }
        }
        assert forall|k: int, i: int|
            0 <= k < spec_words(s).len() && 0 <= i < spec_words(s)[k].len() implies !is_space_char(
            #[trigger] spec_words(s)[k][i],
        ) by {
            if k == 0 {
                assert(spec_words(s)[0] == w);
            } else {
                assert(spec_words(s)[k] == rest[k - 1]);
            }
        }
    }
}

/// Split `s` into its whitespace-separated words.
pub fn split_words(s: &Vec<char>) -> (r: Vec<Vec<char>>)
    ensures
        r@.map_values(|v: Vec<char>| v@) == spec_words(s@),
{
    let mut out: Vec<Vec<char>> = Vec::new();
    let mut i: usize = 0;
    proof {
        assert(s@.skip(0) =~= s@);
        assert(out@.map_values(|v: Vec<char>| v@) + spec_words(s@) =~= spec_words(s@));
    }
    while i < s.len()
        invariant
            i <= s@.len(),
            out@.map_values(|v: Vec<char>| v@) + spec_words(s@.skip(i as int)) =~= spec_words(s@),
        decreases s@.len() - i,
    {
        let ghost t = s@.skip(i as int);
        proof {
            assert(t[0] == s@[i as int]);
            assert(t.skip(1) =~= s@.skip(i + 1));
        }
        if space_char(s[i]) {
            i = i + 1;
        } else {
            let mut j: usize = i;
            proof {
                assert(word_len(s@.skip(i as int)) == (j - i) + word_len(s@.skip(j as int)));
            }
            while j < s.len() && !space_char(s[j])
                invariant
                    i <= j <= s@.len(),
                    word_len(s@.skip(i as int)) == (j - i) + word_len(s@.skip(j as int)),
                decreases s@.len() - j,
            {
                proof {
                    let u = s@.skip(j as int);
                    assert(u[0] == s@[j as int]);
                    assert(u.skip(1) =~= s@.skip(j + 1));
                }
                j = j + 1;
            }
            proof {
                let u = s@.skip(j as int);
                if j < s@.len() {
                    assert(u[0] == s@[j as int]);
                }
                assert(word_len(u) == 0);
                assert(word_len(t) == j - i);
                lemma_word_len(t);
            }
            let mut w: Vec<char> = Vec::new();
            extend_range(&mut w, s, i, j);
            proof {
                let f = |v: Vec<char>| v@;
                assert(w@ =~= Seq::<char>::empty() + s@.subrange(i as int, j as int));
                assert(t.take(word_len(t)) =~= s@.subrange(i as int, j as int));
                assert(t.skip(word_len(t)) =~= s@.skip(j as int));
                assert(spec_words(t) =~= seq![w@] + spec_words(s@.skip(j as int)));
                assert(out@.push(w).map_values(f) =~= out@.map_values(f).push(w@));
                assert(out@.map_values(f).push(w@) + spec_words(s@.skip(j as int))
                    =~= out@.map_values(f) + (seq![w@] + spec_words(s@.skip(j as int))));
            }
            out.push(w);
            i = j;
        }
    }
    proof {
        assert(s@.skip(s@.len() as int) =~= Seq::<char>::empty());
        assert(out@.map_values(|v: Vec<char>| v@) + Seq::<Seq<char>>::empty() =~= out@.map_values(
            |v: Vec<char>| v@,
        ));
    }
    out
}

/// The length of the maximal newline-free prefix of `s`.
pub open spec fn line_len(s: Seq<char>) -> int
    decreases s.len(),
{
    if s.len() == 0 || s[0] == '\n' {
        0
    } else {
        1 + line_len(s.skip(1))
    }
}

/// Bounds of the maximal newline-free prefix.
pub proof fn lemma_line_len(s: Seq<char>)
    ensures
        0 <= line_len(s) <= s.len(),
    decreases s.len(),
{
    if s.len() == 0 || s[0] == '\n' {
    } else {
        lemma_line_len(s.skip(1));
    }
}

#[via_fn]
proof fn spec_lines_dec(s: Seq<char>) {
    lemma_line_len(s);
}

/// The newline-separated pieces of `s`, in order: what splitting on `'\n'`
/// yields, one piece more than there are newlines.
pub open spec fn spec_lines(s: Seq<char>) -> Seq<Seq<char>>
    decreases s.len() via spec_lines_dec
{
    let l = line_len(s);
    if l == s.len() {
        seq![s]
    } else {
        seq![s.take(l)] + spec_lines(s.skip(l + 1))
    }
}

/// Split `s` on newline characters.
pub fn split_lines(s: &Vec<char>) -> (r: Vec<Vec<char>>)
    ensures
        r@.map_values(|v: Vec<char>| v@) == spec_lines(s@),
{
    let mut out: Vec<Vec<char>> = Vec::new();
    let mut i: usize = 0;
    proof {
        assert(s@.skip(0) =~= s@);
        assert(out@.map_values(|v: Vec<char>| v@) + spec_lines(s@) =~= spec_lines(s@));
    }
    loop
        invariant_except_break
            i <= s@.len(),
            out@.map_values(|v: Vec<char>| v@) + spec_lines(s@.skip(i as int)) =~= spec_lines(s@),
        ensures
            out@.map_values(|v: Vec<char>| v@) =~= spec_lines(s@),
        decreases s@.len() - i,
    {
        let ghost t = s@.skip(i as int);
        let mut j: usize = i;
        proof {
            assert(line_len(s@.skip(i as int)) == (j - i) + line_len(s@.skip(j as int)));
        }
        while j < s.len() && s[j] != '\n'
            invariant
                i <= j <= s@.len(),
                line_len(s@.skip(i as int)) == (j - i) + line_len(s@.skip(j as int)),
            decreases s@.len() - j,
        {
            proof {
                let u = s@.skip(j as int);
                assert(u[0] == s@[j as int]);
                assert(u.skip(1) =~= s@.skip(j + 1));
            }
            j = j + 1;
        }
        proof {
            let u = s@.skip(j as int);
            if j < s@.len() {
                assert(u[0] == s@[j as int]);
            }
            assert(line_len(u) == 0);
            assert(line_len(t) == j - i);
            lemma_line_len(t);
        }
        let mut piece: Vec<char> = Vec::new();
        extend_range(&mut piece, s, i, j);
        proof {
            let f = |v: Vec<char>| v@;
            assert(piece@ =~= Seq::<char>::empty() + s@.subrange(i as int, j as int));
            assert(t.take(line_len(t)) =~= s@.subrange(i as int, j as int));
            assert(out@.push(piece).map_values(f) =~= out@.map_values(f).push(piece@));
        }
        if j == s.len() {
            proof {
                assert(t.take(line_len(t)) =~= t);
                assert(spec_lines(t) =~= seq![piece@]);
                assert(out@.map_values(|v: Vec<char>| v@).push(piece@) =~= out@.map_values(
                    |v: Vec<char>| v@,
                ) + seq![piece@]);
            }
            out.push(piece);
            break;
        }
        proof {
            assert(t.skip(line_len(t) + 1) =~= s@.skip(j + 1));
            assert(spec_lines(t) =~= seq![piece@] + spec_lines(s@.skip(j + 1)));
            assert(out@.map_values(|v: Vec<char>| v@).push(piece@) + spec_lines(s@.skip(j + 1))
                =~= out@.map_values(|v: Vec<char>| v@) + (seq![piece@] + spec_lines(
                s@.skip(j + 1),
            )));
        }
        out.push(piece);
        i = j + 1;
    }
    out
}

/// `s` starts with `pre`.
pub open spec fn starts_with(s: Seq<char>, pre: Seq<char>) -> bool {
    pre.len() <= s.len() && s.subrange(0, pre.len() as int) =~= pre
}

/// `s` ends with `suf`.
pub open spec fn ends_with(s: Seq<char>, suf: Seq<char>) -> bool {
    suf.len() <= s.len() && s.subrange(s.len() - suf.len(), s.len() as int) =~= suf
}

/// Whether `s` starts with `pre`.
pub fn check_starts_with(s: &Vec<char>, pre: &Vec<char>) -> (r: bool)
    ensures
        r == starts_with(s@, pre@),
{
    if pre.len() > s.len() {
        return false;
    }
    check_match_at(s, pre, 0)
}

/// Whether `s` ends with `suf`.
pub fn check_ends_with(s: &Vec<char>, suf: &Vec<char>) -> (r: bool)
    ensures
        r == ends_with(s@, suf@),
{
    if suf.len() > s.len() {
        return false;
    }
    let r = check_match_at(s, suf, s.len() - suf.len());
    proof {
        assert(match_at(s@, suf@, s@.len() - suf@.len()) == ends_with(s@, suf@));
    }
    r
}

/// Whether `s` and `t` hold the same characters.
pub fn chars_equal(s: &Vec<char>, t: &Vec<char>) -> (r: bool)
    ensures
        r == (s@ =~= t@),
{
    if s.len() != t.len() {
        return false;
    }
    let r = check_match_at(s, t, 0);
    proof {
        if match_at(s@, t@, 0) {
            assert(s@.subrange(0, t@.len() as int) =~= s@);
        }
        if s@ =~= t@ {
            assert(s@.subrange(0, t@.len() as int) =~= t@);
        }
    }
    r
}

/// The characters of `s`.
pub fn str_chars(s: &str) -> (r: Vec<char>)
    ensures
        r@ == s@,
{
    let n = s.unicode_len();
    let mut r: Vec<char> = Vec::new();
    let mut i: usize = 0;
    while i < n
        invariant
            n == s@.len(),
            i <= n,
            r@ =~= s@.subrange(0, i as int),
        decreases n - i,
    {
        let c = s.get_char(i);
        proof {
            assert(s@.subrange(0, i + 1) =~= s@.subrange(0, i as int).push(c));
        }
        r.push(c);
        i = i + 1;
    }
    proof {
        assert(s@.subrange(0, s@.len() as int) =~= s@);
    }
    r
}

} // verus!
