//! Display-column widths of characters and lines. A character's width comes
//! from the `unicode-width` crate; a line's width is the sum of its
//! characters' widths, which is the model this library uses both for
//! word-wrapping and for alignment padding.

use vstd::prelude::*;

verus! {

/// The display-column width of one character, as `unicode-width` assigns it
/// (control characters counted as zero).
pub uninterp spec fn char_col_width(c: char) -> nat;

/// Relies on `unicode_width::UnicodeWidthChar::width`: the width is a
/// function of the character alone, is at most 3, and is exactly 1 for
/// printable ASCII; control characters, for which the crate returns nothing,
/// count as zero columns here.
#[verifier::external_body]
pub fn char_display_width(c: char) -> (r: usize)
    ensures
        r == char_col_width(c),
        r <= 3,
        ' ' <= c && c <= '~' ==> r == 1,
{
    unicode_width::UnicodeWidthChar::width(c).unwrap_or(0)
}

/// The display width of a character sequence: the sum of its characters'
/// widths.
pub open spec fn seq_width(s: Seq<char>) -> nat
    decreases s.len(),
{
    if s.len() == 0 {
        0
    } else {
        char_col_width(s[0]) + seq_width(s.skip(1))
    }
}

/// Width adds over concatenation.
pub proof fn lemma_width_concat(a: Seq<char>, b: Seq<char>)
    ensures
        seq_width(a + b) == seq_width(a) + seq_width(b),
    decreases a.len(),
{
    if a.len() == 0 {
        assert(a + b =~= b);
    } else {
        lemma_width_concat(a.skip(1), b);
        assert((a + b).skip(1) =~= a.skip(1) + b);
        assert((a + b)[0] == a[0]);
    }
}

/// Width of a single character sequence.
pub proof fn lemma_width_singleton(c: char)
    ensures
        seq_width(seq![c]) == char_col_width(c),
{
    let s = seq![c];
    assert(s.skip(1) =~= Seq::<char>::empty());
    assert(seq_width(s) == char_col_width(s[0]) + seq_width(s.skip(1)));
    assert(seq_width(Seq::<char>::empty()) == 0);
}

/// A bound on text length under which width sums cannot overflow a `usize`.
pub const MAX_TEXT_LEN: usize = 0x1000_0000;

/// The display width of a line of characters.
pub fn line_width(s: &Vec<char>) -> (r: usize)
    requires
        s@.len() <= MAX_TEXT_LEN,
    ensures
        r == seq_width(s@),
        r <= 3 * s@.len(),
{
    let mut total: usize = 0;
    let mut i: usize = 0;
    proof {
        assert(s@.skip(0) =~= s@);
    }
    while i < s.len()
        invariant
            i <= s@.len(),
            s@.len() <= MAX_TEXT_LEN,
            total + seq_width(s@.skip(i as int)) == seq_width(s@),
            total <= 3 * i,
        decreases s@.len() - i,
    {
        let w = char_display_width(s[i]);
        proof {
            assert(s@.skip(i as int)[0] == s@[i as int]);
            assert(s@.skip(i as int).skip(1) =~= s@.skip(i + 1));
        }
        total = total + w;
        i = i + 1;
    }
    proof {
        assert(s@.skip(s@.len() as int) =~= Seq::<char>::empty());
    }
    total
}

} // verus!
