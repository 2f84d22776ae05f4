//! Greedy word-wrapping by display columns: words are packed into lines that
//! stay within a column budget, and a single word is never broken, even when
//! it alone exceeds the budget.

use vstd::prelude::*;
use crate::colwidth::{char_col_width, line_width, seq_width, lemma_width_concat,
    lemma_width_singleton, MAX_TEXT_LEN};
use crate::textops::{is_space_char, spec_words, spec_lines, split_words, split_lines,
    lemma_words_wordlike, extend_range};

verus! {

/// The widest a pane can be: a terminal dimension fits in 16 bits.
pub const MAX_PANE_WIDTH: usize = 0xFFFF;

/// A produced line is within the column budget, or is one single word (and
/// then contains no whitespace at all).
pub open spec fn wrap_line_ok(l: Seq<char>, max: int) -> bool {
    seq_width(l) <= max || forall|i: int| 0 <= i < l.len() ==> !is_space_char(#[trigger] l[i])
}

/// The state of the greedy packer: finished lines, and the line being built.
pub ghost struct PackState {
    pub lines: Seq<Seq<char>>,
    pub cur: Seq<char>,
}

/// Feed one word to the packer: start the line with it, break the line before
/// it when it does not fit, or append it after a single space.
pub open spec fn pack_step(st: PackState, w: Seq<char>, max: int) -> PackState {
    if st.cur.len() == 0 {
        PackState { lines: st.lines, cur: w }
    } else if seq_width(st.cur) + 1 + seq_width(w) > max {
        PackState { lines: st.lines.push(st.cur), cur: w }
    } else {
        PackState { lines: st.lines, cur: st.cur + seq![' '] + w }
    }
}

/// The packer's state after the first `k` of the words `ws`.
pub open spec fn pack_upto(ws: Seq<Seq<char>>, max: int, k: int) -> PackState
    decreases k,
{
    if k <= 0 {
        PackState { lines: Seq::empty(), cur: Seq::empty() }
    } else {
        pack_step(pack_upto(ws, max, k - 1), ws[k - 1], max)
    }
}

/// Close the packer: an unfinished nonempty line is emitted.
pub open spec fn pack_finish(st: PackState) -> Seq<Seq<char>> {
    if st.cur.len() > 0 {
        st.lines.push(st.cur)
    } else {
        st.lines
    }
}

/// The wrapped lines of one newline-free line of text.
pub open spec fn spec_wrap_line(s: Seq<char>, max: int) -> Seq<Seq<char>> {
    pack_finish(pack_upto(spec_words(s), max, spec_words(s).len() as int))
}

/// The wrapped lines of the first `k` newline-separated pieces of a text.
pub open spec fn spec_wrap_upto(ls: Seq<Seq<char>>, max: int, k: int) -> Seq<Seq<char>>
    decreases k,
{
    if k <= 0 {
        Seq::empty()
    } else {
        spec_wrap_upto(ls, max, k - 1) + spec_wrap_line(ls[k - 1], max)
    }
}

/// The wrapped lines of a whole text: each newline-separated piece is wrapped
/// on its own, and an empty piece yields no line.
pub open spec fn spec_wrap_text(s: Seq<char>, max: int) -> Seq<Seq<char>> {
    spec_wrap_upto(spec_lines(s), max, spec_lines(s).len() as int)
}

/// Every piece that splitting yields is no longer than the split text.
proof fn lemma_lines_len(s: Seq<char>)
    ensures
        forall|k: int| 0 <= k < spec_lines(s).len() ==> (#[trigger] spec_lines(s)[k]).len()
            <= s.len(),
    decreases s.len(),
{
    let l = crate::textops::line_len(s);
    crate::textops::lemma_line_len(s);
    if l < s.len() {
        lemma_lines_len(s.skip(l + 1));
        let rest = spec_lines(s.skip(l + 1));
        assert forall|k: int| 0 <= k < spec_lines(s).len() implies (#[trigger] spec_lines(
            s,
        )[k]).len() <= s.len() by {
            if k > 0 {
                assert(spec_lines(s)[k] == rest[k - 1]);
            }
        }
    }
}

/// Every word is no longer than the text it was split from.
proof fn lemma_words_len(s: Seq<char>)
    ensures
        forall|k: int| 0 <= k < spec_words(s).len() ==> (#[trigger] spec_words(s)[k]).len()
            <= s.len(),
    decreases s.len(),
{
    if s.len() == 0 {
    } else if is_space_char(s[0]) {
        lemma_words_len(s.skip(1));
        assert forall|k: int| 0 <= k < spec_words(s).len() implies (#[trigger] spec_words(
            s,
        )[k]).len() <= s.len() by {
            assert(spec_words(s)[k] == spec_words(s.skip(1))[k]);
        }
    } else {
        crate::textops::lemma_word_len(s);
        let wl = crate::textops::word_len(s);
        lemma_words_len(s.skip(wl));
        let rest = spec_words(s.skip(wl));
        assert forall|k: int| 0 <= k < spec_words(s).len() implies (#[trigger] spec_words(
            s,
        )[k]).len() <= s.len() by {
            if k == 0 {
                assert(spec_words(s)[0] == s.take(wl));
            } else {
                assert(spec_words(s)[k] == rest[k - 1]);
            }
        }
    }
}

/// The cost of a word list: each word's length plus one separator.
pub open spec fn words_cost(ws: Seq<Seq<char>>) -> int
    decreases ws.len(),
{
    if ws.len() == 0 {
        0
    } else {
        ws[0].len() + 1 + words_cost(ws.drop_first())
    }
}

/// The cost is never negative.
proof fn lemma_words_cost_nonneg(ws: Seq<Seq<char>>)
    ensures
        words_cost(ws) >= 0,
    decreases ws.len(),
{
    if ws.len() > 0 {
        lemma_words_cost_nonneg(ws.drop_first());
    }
}

/// Unfolding the cost at position `k`.
proof fn lemma_words_cost_skip(ws: Seq<Seq<char>>, k: int)
    requires
        0 <= k < ws.len(),
    ensures
        words_cost(ws.skip(k)) == ws[k].len() + 1 + words_cost(ws.skip(k + 1)),
{
    let t = ws.skip(k);
    assert(t[0] == ws[k]);
    assert(t.drop_first() =~= ws.skip(k + 1));
}

/// The words of a text, with one separator each, never cost more than the
/// text's length plus one.
proof fn lemma_words_cost_bound(s: Seq<char>)
    ensures
        words_cost(spec_words(s)) <= s.len() + 1,
    decreases s.len(),
{
    if s.len() == 0 {
    } else if is_space_char(s[0]) {
        lemma_words_cost_bound(s.skip(1));
    } else {
        crate::textops::lemma_word_len(s);
        let wl = crate::textops::word_len(s);
        let w = s.take(wl);
        let rest = spec_words(s.skip(wl));
        assert(spec_words(s) =~= seq![w] + rest);
        assert((seq![w] + rest)[0] == w);
        assert((seq![w] + rest).drop_first() =~= rest);
        if wl < s.len() {
            assert(s.skip(wl)[0] == s[wl]);
            assert(is_space_char(s.skip(wl)[0]));
            assert(rest == spec_words(s.skip(wl).skip(1)));
            assert(s.skip(wl).skip(1) =~= s.skip(wl + 1));
            lemma_words_cost_bound(s.skip(wl + 1));
        } else {
            assert(s.skip(wl).len() == 0);
            assert(words_cost(rest) == 0);
        }
    }
}

/// Wrap one newline-free line of text into `out`.
fn wrap_one_line(line: &Vec<char>, max: usize, out: &mut Vec<Vec<char>>)
    requires
        line@.len() <= MAX_TEXT_LEN,
        max <= MAX_PANE_WIDTH,
    ensures
        final(out)@.map_values(|v: Vec<char>| v@) =~= old(out)@.map_values(|v: Vec<char>| v@)
            + spec_wrap_line(line@, max as int),
        forall|k: int|
            old(out)@.len() <= k < final(out)@.len() ==> wrap_line_ok(
                #[trigger] final(out)@[k]@,
                max as int,
            ),
        forall|k: int|
            old(out)@.len() <= k < final(out)@.len() ==> (#[trigger] final(out)@[k])@.len()
                <= line@.len() + 1,
{
    let ghost base = out@.map_values(|v: Vec<char>| v@);
    let ghost base_len = out@.len();
    let words = split_words(line);
    let ghost ws = spec_words(line@);
    proof {
        lemma_words_len(line@);
        lemma_words_wordlike(line@);
    }
    let mut cur: Vec<char> = Vec::new();
    let mut cur_w: usize = 0;
    let mut k: usize = 0;
    let space_w = crate::colwidth::char_display_width(' ');
    proof {
        lemma_words_cost_bound(line@);
        assert(ws.skip(0) =~= ws);
    }
    while k < words.len()
        invariant
            words@.map_values(|v: Vec<char>| v@) == ws,
            ws == spec_words(line@),
            line@.len() <= MAX_TEXT_LEN,
            max <= MAX_PANE_WIDTH,
            k <= words@.len(),
            base == out@.map_values(|v: Vec<char>| v@).subrange(0, base_len as int),
            base_len <= out@.len(),
            out@.map_values(|v: Vec<char>| v@) =~= base + pack_upto(ws, max as int, k as int).lines,
            cur@ == pack_upto(ws, max as int, k as int).cur,
            char_col_width(' ') == 1,
            cur_w == seq_width(cur@),
            cur_w <= 3 * cur@.len(),
            cur@.len() + words_cost(ws.skip(k as int)) <= line@.len() + 1,
            cur@.len() > 0 ==> wrap_line_ok(cur@, max as int),
            forall|j: int|
                base_len <= j < out@.len() ==> wrap_line_ok(#[trigger] out@[j]@, max as int),
            forall|j: int|
                base_len <= j < out@.len() ==> (#[trigger] out@[j])@.len() <= line@.len() + 1,
        decreases words@.len() - k,
    {
        let w = &words[k];
        proof {
            lemma_words_len(line@);
            lemma_words_wordlike(line@);
            lemma_words_cost_skip(ws, k as int);
            lemma_words_cost_nonneg(ws.skip(k + 1));
            assert(w@ == ws[k as int]);
            assert(w@.len() <= line@.len());
            assert(pack_upto(ws, max as int, k + 1) == pack_step(
                pack_upto(ws, max as int, k as int),
                ws[k as int],
                max as int,
            ));
        }
        let w_w = line_width(w);
        if cur.len() == 0 {
            let mut fresh: Vec<char> = Vec::new();
            extend_range(&mut fresh, w, 0, w.len());
            proof {
                assert(fresh@ =~= w@);
                assert forall|i: int| 0 <= i < w@.len() implies !is_space_char(
                    #[trigger] w@[i],
                ) by {
                    assert(!is_space_char(spec_words(line@)[k as int][i]));
                }
            }
            cur = fresh;
            cur_w = w_w;
        } else if cur_w + 1 + w_w > max {
            proof {
                let f = |v: Vec<char>| v@;
                assert(out@.push(cur).map_values(f) =~= out@.map_values(f).push(cur@));
                assert(out@.push(cur).map_values(f).subrange(0, base_len as int)
                    =~= out@.map_values(f).subrange(0, base_len as int));
            }
            out.push(cur);
            let mut fresh: Vec<char> = Vec::new();
            extend_range(&mut fresh, w, 0, w.len());
            proof {
                assert(fresh@ =~= w@);
                assert forall|i: int| 0 <= i < w@.len() implies !is_space_char(
                    #[trigger] w@[i],
                ) by {
                    assert(!is_space_char(spec_words(line@)[k as int][i]));
                }
            }
            cur = fresh;
            cur_w = w_w;
        } else {
            proof {
                lemma_width_concat(cur@ + seq![' '], w@);
                lemma_width_concat(cur@, seq![' ']);
                lemma_width_singleton(' ');
            }
            cur.push(' ');
            extend_range(&mut cur, w, 0, w.len());
            proof {
                assert(cur@ =~= pack_upto(ws, max as int, k as int).cur + seq![' '] + w@);
            }
            cur_w = cur_w + 1 + w_w;
        }
        k = k + 1;
    }
    if cur.len() > 0 {
        proof {
            let f = |v: Vec<char>| v@;
            assert(out@.push(cur).map_values(f) =~= out@.map_values(f).push(cur@));
            assert(out@.push(cur).map_values(f).subrange(0, base_len as int) =~= out@.map_values(
                f,
            ).subrange(0, base_len as int));
            assert(spec_wrap_line(line@, max as int) == pack_upto(
                ws,
                max as int,
                ws.len() as int,
            ).lines.push(cur@));
        }
        out.push(cur);
    }
}

/// Wrap `text` to the column budget `max`: each newline-separated piece is
/// wrapped on its own; every produced line stays within the budget unless it
/// is one unbreakable word.
pub fn wrap_text(text: &Vec<char>, max: usize) -> (r: Vec<Vec<char>>)
    requires
        text@.len() <= MAX_TEXT_LEN,
        max <= MAX_PANE_WIDTH,
    ensures
        r@.map_values(|v: Vec<char>| v@) == spec_wrap_text(text@, max as int),
        forall|k: int| 0 <= k < r@.len() ==> wrap_line_ok(#[trigger] r@[k]@, max as int),
        forall|k: int| 0 <= k < r@.len() ==> (#[trigger] r@[k])@.len() <= text@.len() + 1,
{
    let lines = split_lines(text);
    let ghost ls = spec_lines(text@);
    proof {
        lemma_lines_len(text@);
    }
    let mut out: Vec<Vec<char>> = Vec::new();
    let mut i: usize = 0;
    while i < lines.len()
        invariant
            lines@.map_values(|v: Vec<char>| v@) == ls,
            ls == spec_lines(text@),
            text@.len() <= MAX_TEXT_LEN,
            max <= MAX_PANE_WIDTH,
            i <= lines@.len(),
            out@.map_values(|v: Vec<char>| v@) =~= spec_wrap_upto(ls, max as int, i as int),
            forall|j: int| 0 <= j < out@.len() ==> wrap_line_ok(#[trigger] out@[j]@, max as int),
            forall|j: int| 0 <= j < out@.len() ==> (#[trigger] out@[j])@.len() <= text@.len() + 1,
        decreases lines@.len() - i,
    {
        let line = &lines[i];
        proof {
            lemma_lines_len(text@);
            assert(line@ == ls[i as int]);
            assert(line@.len() <= text@.len());
        }
        let ghost prev = out@;
        wrap_one_line(line, max, &mut out);
        proof {
            assert(spec_wrap_upto(ls, max as int, i + 1) == spec_wrap_upto(ls, max as int, i as int)
                + spec_wrap_line(ls[i as int], max as int));
            let f = |v: Vec<char>| v@;
            assert forall|j: int| 0 <= j < out@.len() implies wrap_line_ok(
                #[trigger] out@[j]@,
                max as int,
            ) && (#[trigger] out@[j])@.len() <= text@.len() + 1 by {
                if j < prev.len() {
                    assert(out@.map_values(f)[j] == f(out@[j]));
                    assert(prev.map_values(f)[j] == f(prev[j]));
                    assert(wrap_line_ok(prev[j]@, max as int));
                    assert(prev[j]@.len() <= text@.len() + 1);
                } else {
                    assert(out@[j]@.len() <= line@.len() + 1);
                    assert(line@.len() <= text@.len());
                }
            }
        }
        i = i + 1;
    }
    out
}

} // verus!
