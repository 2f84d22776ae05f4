//! Normalization of raw rich-text message bodies into plain text: quoted
//! reference tags are removed with their content, emoji tags are replaced by
//! their alternate text, a fixed table of character entities is decoded,
//! block-level tags become newlines, remaining tags are stripped, newline
//! runs are collapsed, and the result is trimmed.

use vstd::prelude::*;
use crate::textops::{spec_find, lemma_find_props, find_pattern, match_at, check_match_at,
    extend_range, str_chars, spec_replace, replace_all, spec_strip_tags, strip_tags,
    spec_collapse_nl, collapse_newlines, spec_trim, trim_chars};

verus! {

#[via_fn]
proof fn spec_drop_reference_tags_dec(s: Seq<char>, pos: int) {
    reveal_strlit("<attachment");
    reveal_strlit("</attachment>");
    if 0 <= pos {
        lemma_find_props(s, "<attachment"@, pos);
        match spec_find(s, "<attachment"@, pos) {
            Some(i) => {
                assert(s.subrange(i, i + "<attachment"@.len()) =~= "<attachment"@);
                assert(s.subrange(i, i + 11)[0] == s[i]);
                assert(s[i] == '<');
                lemma_find_props(s, seq!['>'], i);
                match spec_find(s, seq!['>'], i) {
                    Some(j) => {
                        assert(s.subrange(j, j + 1) =~= seq!['>']);
                        assert(s.subrange(j, j + 1)[0] == s[j]);
                        assert(s[j] == '>');
                        lemma_find_props(s, "</attachment>"@, j + 1);
                    },
                    None => {},
                }
            },
            None => {},
        }
    }
}

/// Drop each quoted-reference tag of `s` (from position `pos` on), with its
/// content: a self-closing tag is dropped to its `>`, a paired one to the end
/// of its closing tag, and one with no `>` at all passes its first characters
/// through unchanged.
pub open spec fn spec_drop_reference_tags(s: Seq<char>, pos: int) -> Seq<char>
    decreases s.len() - pos via spec_drop_reference_tags_dec
{
    match spec_find(s, "<attachment"@, pos) {
        None => s.skip(pos),
        Some(i) => {
            let prefix = s.subrange(pos, i);
            match spec_find(s, seq!['>'], i) {
                None => prefix + s.subrange(i, i + 11) + spec_drop_reference_tags(s, i + 11),
                Some(j) => {
                    if s[j - 1] == '/' {
                        prefix + spec_drop_reference_tags(s, j + 1)
                    } else {
                        match spec_find(s, "</attachment>"@, j + 1) {
                            Some(c) => prefix + spec_drop_reference_tags(s, c + 13),
                            None => prefix + spec_drop_reference_tags(s, j + 1),
                        }
                    }
                },
            }
        },
    }
}

/// Remove quoted-reference tags and their content.
pub fn drop_reference_tags(s: &Vec<char>) -> (r: Vec<char>)
    ensures
        r@ == spec_drop_reference_tags(s@, 0),
{
    let open_tag = str_chars("<attachment");
    let close_tag = str_chars("</attachment>");
    let gt = str_chars(">");
    proof {
        reveal_strlit("<attachment");
        reveal_strlit("</attachment>");
        reveal_strlit(">");
        assert(gt@ =~= seq!['>']);
    }
    let mut out: Vec<char> = Vec::new();
    let mut pos: usize = 0;
    proof {
        assert(out@ + spec_drop_reference_tags(s@, 0) =~= spec_drop_reference_tags(s@, 0));
    }
    loop
        invariant_except_break
            open_tag@ == "<attachment"@,
            close_tag@ == "</attachment>"@,
            gt@ == seq!['>'],
            pos <= s@.len(),
            out@ + spec_drop_reference_tags(s@, pos as int) =~= spec_drop_reference_tags(s@, 0),
        ensures
            out@ =~= spec_drop_reference_tags(s@, 0),
        decreases s@.len() - pos,
    {
        let slen = s.len();
        proof {
            assert(s@.len() == slen);
            reveal_strlit("<attachment");
            reveal_strlit("</attachment>");
            reveal_strlit(">");
            lemma_find_props(s@, "<attachment"@, pos as int);
        }
        match find_pattern(s, &open_tag, pos) {
            None => {
                let ghost out0 = out@;
                extend_range(&mut out, s, pos, s.len());
                proof {
                    assert(s@.subrange(pos as int, s@.len() as int) =~= s@.skip(pos as int));
                    assert(out@ =~= out0 + s@.skip(pos as int));
                }
                break;
            },
            Some(i) => {
                proof {
                    assert(match_at(s@, "<attachment"@, i as int));
                    assert("<attachment"@.len() == 11);
                    assert(i + 11 <= s@.len());
                    assert(s@.subrange(i as int, i + 11) =~= "<attachment"@);
                    assert(s@.subrange(i as int, i + 11)[0] == s@[i as int]);
                    assert(s@[i as int] == '<');
                }
                let ghost out0 = out@;
                extend_range(&mut out, s, pos, i);
                proof {
                    lemma_find_props(s@, seq!['>'], i as int);
                }
                match find_pattern(s, &gt, i) {
                    None => {
                        extend_range(&mut out, s, i, i + 11);
                        proof {
                            assert(out@ =~= out0 + s@.subrange(pos as int, i as int) + s@.subrange(
                                i as int,
                                i + 11,
                            ));
                            assert(out@ + spec_drop_reference_tags(s@, i + 11)
                                =~= out0 + (s@.subrange(pos as int, i as int) + s@.subrange(
                                i as int,
                                i + 11,
                            ) + spec_drop_reference_tags(s@, i + 11)));
                        }
                        pos = i + 11;
                    },
                    Some(j) => {
                        proof {
                            assert(s@[i as int] == '<');
                            assert(s@[j as int] == '>') by {
                                assert(s@.subrange(j as int, j + 1) =~= seq!['>']);
                                assert(s@.subrange(j as int, j + 1)[0] == s@[j as int]);
                            }
                        }
                        if s[j - 1] == '/' {
                            proof {
                                assert(out@ + spec_drop_reference_tags(s@, j + 1) =~= out0 + (
                                s@.subrange(pos as int, i as int) + spec_drop_reference_tags(
                                    s@,
                                    j + 1,
                                )));
                            }
                            pos = j + 1;
                        } else {
                            proof {
                                lemma_find_props(s@, "</attachment>"@, j + 1);
                                assert("</attachment>"@.len() == 13);
                            }
                            match find_pattern(s, &close_tag, j + 1) {
                                Some(c) => {
                                    proof {
                                        assert(out@ + spec_drop_reference_tags(s@, c + 13) =~= out0
                                            + (s@.subrange(pos as int, i as int)
                                            + spec_drop_reference_tags(s@, c + 13)));
                                    }
                                    pos = c + 13;
                                },
                                None => {
                                    proof {
                                        assert(out@ + spec_drop_reference_tags(s@, j + 1) =~= out0
                                            + (s@.subrange(pos as int, i as int)
                                            + spec_drop_reference_tags(s@, j + 1)));
                                    }
                                    pos = j + 1;
                                },
                            }
                        }
                    },
                }
            },
        }
    }
    out
}

/// The alternate text carried by an emoji tag (`alt="..."`), or nothing when
/// the attribute or its closing quote is missing.
pub open spec fn spec_alt_text(tag: Seq<char>) -> Seq<char> {
    match spec_find(tag, "alt=\""@, 0) {
        None => Seq::empty(),
        Some(a) => match spec_find(tag, seq!['"'], a + 5) {
            Some(q) => tag.subrange(a + 5, q),
            None => Seq::empty(),
        },
    }
}

#[via_fn]
proof fn spec_expand_emoji_dec(s: Seq<char>, pos: int) {
    reveal_strlit("<emoji");
    if 0 <= pos {
        lemma_find_props(s, "<emoji"@, pos);
        match spec_find(s, "<emoji"@, pos) {
            Some(e) => {
                assert(match_at(s, "<emoji"@, e));
                assert(s.subrange(e, e + 6) =~= "<emoji"@);
                assert(s.subrange(e, e + 6)[0] == s[e]);
                assert(s[e] == '<');
                lemma_find_props(s, seq!['>'], e);
                match spec_find(s, seq!['>'], e) {
                    Some(g) => {
                        assert(s.subrange(g, g + 1) =~= seq!['>']);
                        assert(s.subrange(g, g + 1)[0] == s[g]);
                        assert(s[g] == '>');
                        lemma_find_props(s, seq!['>'], g + 1);
                    },
                    None => {},
                }
            },
            None => {},
        }
    }
}

/// Replace each emoji tag of `s` (from position `pos` on) by its alternate
/// text; a paired closing tag is dropped too, and a tag with no `>` passes
/// its first characters through unchanged.
pub open spec fn spec_expand_emoji(s: Seq<char>, pos: int) -> Seq<char>
    decreases s.len() - pos via spec_expand_emoji_dec
{
    match spec_find(s, "<emoji"@, pos) {
        None => s.skip(pos),
        Some(e) => {
            let prefix = s.subrange(pos, e);
            match spec_find(s, seq!['>'], e) {
                None => prefix + s.subrange(e, e + 6) + spec_expand_emoji(s, e + 6),
                Some(g) => {
                    let alt = spec_alt_text(s.subrange(e, g + 1));
                    if match_at(s, "</emoji"@, g + 1) {
                        match spec_find(s, seq!['>'], g + 1) {
                            Some(h) => prefix + alt + spec_expand_emoji(s, h + 1),
                            None => prefix + alt + spec_expand_emoji(s, g + 1),
                        }
                    } else {
                        prefix + alt + spec_expand_emoji(s, g + 1)
                    }
                },
            }
        },
    }
}

/// Replace emoji tags by their alternate text.
#[verifier::rlimit(60)]
pub fn expand_emoji(s: &Vec<char>) -> (r: Vec<char>)
    ensures
        r@ == spec_expand_emoji(s@, 0),
{
    let open_tag = str_chars("<emoji");
    let close_tag = str_chars("</emoji");
    let gt = str_chars(">");
    let alt_marker = str_chars("alt=\"");
    let quote = str_chars("\"");
    proof {
        reveal_strlit("<emoji");
        reveal_strlit("</emoji");
        reveal_strlit(">");
        reveal_strlit("alt=\"");
        reveal_strlit("\"");
        assert(gt@ =~= seq!['>']);
        assert(quote@ =~= seq!['"']);
    }
    let mut out: Vec<char> = Vec::new();
    let mut pos: usize = 0;
    proof {
        assert(out@ + spec_expand_emoji(s@, 0) =~= spec_expand_emoji(s@, 0));
    }
    loop
        invariant_except_break
            open_tag@ == "<emoji"@,
            close_tag@ == "</emoji"@,
            gt@ == seq!['>'],
            alt_marker@ == "alt=\""@,
            quote@ == seq!['"'],
            pos <= s@.len(),
            out@ + spec_expand_emoji(s@, pos as int) =~= spec_expand_emoji(s@, 0),
        ensures
            out@ =~= spec_expand_emoji(s@, 0),
        decreases s@.len() - pos,
    {
        let slen = s.len();
        proof {
            assert(s@.len() == slen);
            reveal_strlit("<emoji");
            reveal_strlit("</emoji");
            reveal_strlit(">");
            reveal_strlit("alt=\"");
            reveal_strlit("\"");
            lemma_find_props(s@, "<emoji"@, pos as int);
        }
        match find_pattern(s, &open_tag, pos) {
            None => {
                let ghost out0 = out@;
                extend_range(&mut out, s, pos, s.len());
                proof {
                    assert(s@.subrange(pos as int, s@.len() as int) =~= s@.skip(pos as int));
                    assert(out@ =~= out0 + s@.skip(pos as int));
                }
                break;
            },
            Some(e) => {
                proof {
                    assert(match_at(s@, "<emoji"@, e as int));
                    assert("<emoji"@.len() == 6);
                    assert(e + 6 <= s@.len());
                    assert(s@.subrange(e as int, e + 6) =~= "<emoji"@);
                    assert(s@.subrange(e as int, e + 6)[0] == s@[e as int]);
                    assert(s@[e as int] == '<');
                }
                let ghost out0 = out@;
                extend_range(&mut out, s, pos, e);
                proof {
                    lemma_find_props(s@, seq!['>'], e as int);
                }
                match find_pattern(s, &gt, e) {
                    None => {
                        extend_range(&mut out, s, e, e + 6);
                        proof {
                            assert(out@ =~= out0 + s@.subrange(pos as int, e as int) + s@.subrange(
                                e as int,
                                e + 6,
                            ));
                            assert(out@ + spec_expand_emoji(s@, e + 6) =~= out0 + (s@.subrange(
                                pos as int,
                                e as int,
                            ) + s@.subrange(e as int, e + 6) + spec_expand_emoji(s@, e + 6)));
                        }
                        pos = e + 6;
                    },
                    Some(g) => {
                        proof {
                            assert(s@.subrange(g as int, g + 1) =~= seq!['>']);
                            assert(s@.subrange(g as int, g + 1)[0] == s@[g as int]);
                            assert(s@[g as int] == '>');
                        }
                        let mut tag: Vec<char> = Vec::new();
                        extend_range(&mut tag, s, e, g + 1);
                        proof {
                            assert(tag@ =~= s@.subrange(e as int, g + 1));
                            lemma_find_props(tag@, "alt=\""@, 0);
                        }
                        let ghost alt = spec_alt_text(s@.subrange(e as int, g + 1));
                        match find_pattern(&tag, &alt_marker, 0) {
                            None => {
                                proof {
                                    assert(alt =~= Seq::<char>::empty());
                                    assert(out@ =~= out0 + s@.subrange(pos as int, e as int) + alt);
                                }
                            },
                            Some(a) => {
                                proof {
                                    assert(match_at(tag@, "alt=\""@, a as int));
                                    assert("alt=\""@.len() == 5);
                                    assert(a + 5 <= tag@.len());
                                    lemma_find_props(tag@, seq!['"'], a + 5);
                                }
                                match find_pattern(&tag, &quote, a + 5) {
                                    None => {
                                        proof {
                                            assert(alt =~= Seq::<char>::empty());
                                            assert(out@ =~= out0 + s@.subrange(
                                                pos as int,
                                                e as int,
                                            ) + alt);
                                        }
                                    },
                                    Some(q) => {
                                        proof {
                                            assert(match_at(tag@, seq!['"'], q as int));
                                            assert(q + 1 <= tag@.len());
                                            assert(alt =~= tag@.subrange(a + 5, q as int));
                                        }
                                        extend_range(&mut out, &tag, a + 5, q);
                                        proof {
                                            assert(out@ =~= out0 + s@.subrange(
                                                pos as int,
                                                e as int,
                                            ) + alt);
                                        }
                                    },
                                }
                            },
                        }
                        proof {
                            lemma_find_props(s@, seq!['>'], g + 1);
                        }
                        let is_paired = check_match_at(s, &close_tag, g + 1);
                        if is_paired {
                            match find_pattern(s, &gt, g + 1) {
                                Some(h) => {
                                    proof {
                                        assert(out@ + spec_expand_emoji(s@, h + 1) =~= out0 + (
                                        s@.subrange(pos as int, e as int) + alt + spec_expand_emoji(
                                            s@,
                                            h + 1,
                                        )));
                                    }
                                    pos = h + 1;
                                },
                                None => {
                                    proof {
                                        assert(out@ + spec_expand_emoji(s@, g + 1) =~= out0 + (
                                        s@.subrange(pos as int, e as int) + alt + spec_expand_emoji(
                                            s@,
                                            g + 1,
                                        )));
                                    }
                                    pos = g + 1;
                                },
                            }
                        } else {
                            proof {
                                assert(out@ + spec_expand_emoji(s@, g + 1) =~= out0 + (s@.subrange(
                                    pos as int,
                                    e as int,
                                ) + alt + spec_expand_emoji(s@, g + 1)));
                            }
                            pos = g + 1;
                        }
                    },
                }
            },
        }
    }
    out
}


/// Decode the fixed table of character entities, one full pass per entry, in
/// the order the table lists them.
pub open spec fn spec_decode_entities(s: Seq<char>) -> Seq<char> {
    let s1 = spec_replace(s, "&nbsp;"@, " "@);
    let s2 = spec_replace(s1, "&amp;"@, "&"@);
    let s3 = spec_replace(s2, "&lt;"@, "<"@);
    let s4 = spec_replace(s3, "&gt;"@, ">"@);
    let s5 = spec_replace(s4, "&quot;"@, "\""@);
    let s6 = spec_replace(s5, "&#39;"@, "'"@);
    let s7 = spec_replace(s6, "&apos;"@, "'"@);
    let s8 = spec_replace(s7, "&#160;"@, " "@);
    spec_replace(s8, "&nbsp"@, " "@)
}

/// Decode character entities to their literal characters.
pub fn decode_entities(s: &Vec<char>) -> (r: Vec<char>)
    ensures
        r@ == spec_decode_entities(s@),
{
    proof {
        reveal_strlit("&nbsp;");
        reveal_strlit("&amp;");
        reveal_strlit("&lt;");
        reveal_strlit("&gt;");
        reveal_strlit("&quot;");
        reveal_strlit("&#39;");
        reveal_strlit("&apos;");
        reveal_strlit("&#160;");
        reveal_strlit("&nbsp");
        reveal_strlit(" ");
        reveal_strlit("&");
        reveal_strlit("<");
        reveal_strlit(">");
        reveal_strlit("\"");
        reveal_strlit("'");
    }
    let s1 = replace_all(s, &str_chars("&nbsp;"), &str_chars(" "));
    let s2 = replace_all(&s1, &str_chars("&amp;"), &str_chars("&"));
    let s3 = replace_all(&s2, &str_chars("&lt;"), &str_chars("<"));
    let s4 = replace_all(&s3, &str_chars("&gt;"), &str_chars(">"));
    let s5 = replace_all(&s4, &str_chars("&quot;"), &str_chars("\""));
    let s6 = replace_all(&s5, &str_chars("&#39;"), &str_chars("'"));
    let s7 = replace_all(&s6, &str_chars("&apos;"), &str_chars("'"));
    let s8 = replace_all(&s7, &str_chars("&#160;"), &str_chars(" "));
    replace_all(&s8, &str_chars("&nbsp"), &str_chars(" "))
}

/// Turn block-level markup into newline boundaries: closing block tags and
/// line breaks become newlines, opening block tags are dropped; one full pass
/// per entry, in the order the table lists them.
pub open spec fn spec_block_breaks(s: Seq<char>) -> Seq<char> {
    let s1 = spec_replace(s, "</p>"@, "\n"@);
    let s2 = spec_replace(s1, "<p>"@, ""@);
    let s3 = spec_replace(s2, "</div>"@, "\n"@);
    let s4 = spec_replace(s3, "<div>"@, ""@);
    let s5 = spec_replace(s4, "</li>"@, "\n"@);
    let s6 = spec_replace(s5, "<li>"@, ""@);
    let s7 = spec_replace(s6, "<br>"@, "\n"@);
    let s8 = spec_replace(s7, "<br/>"@, "\n"@);
    let s9 = spec_replace(s8, "<br />"@, "\n"@);
    spec_replace(s9, "</br>"@, "\n"@)
}

/// Convert block-level markup to newlines.
pub fn block_breaks(s: &Vec<char>) -> (r: Vec<char>)
    ensures
        r@ == spec_block_breaks(s@),
{
    proof {
        reveal_strlit("</p>");
        reveal_strlit("<p>");
        reveal_strlit("</div>");
        reveal_strlit("<div>");
        reveal_strlit("</li>");
        reveal_strlit("<li>");
        reveal_strlit("<br>");
        reveal_strlit("<br/>");
        reveal_strlit("<br />");
        reveal_strlit("</br>");
        reveal_strlit("\n");
        reveal_strlit("");
    }
    let s1 = replace_all(s, &str_chars("</p>"), &str_chars("\n"));
    let s2 = replace_all(&s1, &str_chars("<p>"), &str_chars(""));
    let s3 = replace_all(&s2, &str_chars("</div>"), &str_chars("\n"));
    let s4 = replace_all(&s3, &str_chars("<div>"), &str_chars(""));
    let s5 = replace_all(&s4, &str_chars("</li>"), &str_chars("\n"));
    let s6 = replace_all(&s5, &str_chars("<li>"), &str_chars(""));
    let s7 = replace_all(&s6, &str_chars("<br>"), &str_chars("\n"));
    let s8 = replace_all(&s7, &str_chars("<br/>"), &str_chars("\n"));
    let s9 = replace_all(&s8, &str_chars("<br />"), &str_chars("\n"));
    replace_all(&s9, &str_chars("</br>"), &str_chars("\n"))
}

/// The whole normalization of one raw message body: reference tags out,
/// emoji tags to their alternate text, entities decoded, block markup to
/// newlines, remaining tags stripped, newline runs collapsed to two, and the
/// result trimmed.
pub open spec fn spec_normalize_body(s: Seq<char>) -> Seq<char> {
    spec_trim(
        spec_collapse_nl(
            spec_strip_tags(
                spec_block_breaks(spec_decode_entities(spec_expand_emoji(
                    spec_drop_reference_tags(s, 0),
                    0,
                ))),
                false,
            ),
            0,
        ),
    )
}

/// Normalize one raw message body to plain text.
pub fn normalize_body(s: &Vec<char>) -> (r: Vec<char>)
    ensures
        r@ == spec_normalize_body(s@),
{
    let a = drop_reference_tags(s);
    let b = expand_emoji(&a);
    let c = decode_entities(&b);
    let d = block_breaks(&c);
    let e = strip_tags(&d);
    let f = collapse_newlines(&e);
    trim_chars(&f)
}


/// Replacement by a piece no longer than the pattern never lengthens a text.
proof fn lemma_replace_len(s: Seq<char>, pat: Seq<char>, rep: Seq<char>)
    requires
        pat.len() > 0,
        rep.len() <= pat.len(),
    ensures
        spec_replace(s, pat, rep).len() <= s.len(),
    decreases s.len(),
{
    if s.len() < pat.len() {
    } else if s.subrange(0, pat.len() as int) =~= pat {
        lemma_replace_len(s.skip(pat.len() as int), pat, rep);
    } else {
        lemma_replace_len(s.skip(1), pat, rep);
    }
}

/// Stripping tags never lengthens a text.
proof fn lemma_strip_tags_len(s: Seq<char>, inside: bool)
    ensures
        spec_strip_tags(s, inside).len() <= s.len(),
    decreases s.len(),
{
    if s.len() > 0 {
        lemma_strip_tags_len(s.skip(1), true);
        lemma_strip_tags_len(s.skip(1), false);
        lemma_strip_tags_len(s.skip(1), inside);
    }
}

/// Collapsing newlines never lengthens a text.
proof fn lemma_collapse_len(s: Seq<char>, run: int)
    ensures
        spec_collapse_nl(s, run).len() <= s.len(),
    decreases s.len(),
{
    if s.len() > 0 {
        lemma_collapse_len(s.skip(1), run + 1);
        lemma_collapse_len(s.skip(1), 0);
    }
}

/// Trimming never lengthens a text.
proof fn lemma_trim_len(s: Seq<char>)
    ensures
        spec_trim(s).len() <= s.len(),
{
    lemma_trim_start_len(s);
    lemma_trim_end_len(crate::textops::spec_trim_start(s));
}

proof fn lemma_trim_start_len(s: Seq<char>)
    ensures
        crate::textops::spec_trim_start(s).len() <= s.len(),
    decreases s.len(),
{
    if s.len() > 0 && crate::textops::is_space_char(s[0]) {
        lemma_trim_start_len(s.skip(1));
    }
}

proof fn lemma_trim_end_len(s: Seq<char>)
    ensures
        crate::textops::spec_trim_end(s).len() <= s.len(),
    decreases s.len(),
{
    if s.len() > 0 && crate::textops::is_space_char(s.last()) {
        lemma_trim_end_len(s.drop_last());
    }
}

/// Dropping reference tags never lengthens the remaining text.
proof fn lemma_drop_reference_len(s: Seq<char>, pos: int)
    requires
        0 <= pos <= s.len(),
    ensures
        spec_drop_reference_tags(s, pos).len() <= s.len() - pos,
    decreases s.len() - pos,
{
    reveal_strlit("<attachment");
    reveal_strlit("</attachment>");
    lemma_find_props(s, "<attachment"@, pos);
    match spec_find(s, "<attachment"@, pos) {
        None => {},
        Some(i) => {
            lemma_find_props(s, seq!['>'], i);
            match spec_find(s, seq!['>'], i) {
                None => {
                    lemma_drop_reference_len(s, i + 11);
                },
                Some(j) => {
                    if s[j - 1] == '/' {
                        lemma_drop_reference_len(s, j + 1);
                    } else {
                        lemma_find_props(s, "</attachment>"@, j + 1);
                        match spec_find(s, "</attachment>"@, j + 1) {
                            Some(c) => {
                                lemma_drop_reference_len(s, c + 13);
                            },
                            None => {
                                lemma_drop_reference_len(s, j + 1);
                            },
                        }
                    }
                },
            }
        },
    }
}

/// Expanding emoji tags never lengthens the remaining text.
proof fn lemma_expand_emoji_len(s: Seq<char>, pos: int)
    requires
        0 <= pos <= s.len(),
    ensures
        spec_expand_emoji(s, pos).len() <= s.len() - pos,
    decreases s.len() - pos,
{
    reveal_strlit("<emoji");
    reveal_strlit("</emoji");
    reveal_strlit("alt=\"");
    lemma_find_props(s, "<emoji"@, pos);
    match spec_find(s, "<emoji"@, pos) {
        None => {},
        Some(e) => {
            lemma_find_props(s, seq!['>'], e);
            match spec_find(s, seq!['>'], e) {
                None => {
                    lemma_expand_emoji_len(s, e + 6);
                },
                Some(g) => {
                    let tag = s.subrange(e, g + 1);
                    lemma_find_props(tag, "alt=\""@, 0);
                    match spec_find(tag, "alt=\""@, 0) {
                        None => {},
                        Some(a) => {
                            lemma_find_props(tag, seq!['"'], a + 5);
                        },
                    }
                    assert(spec_alt_text(tag).len() <= g + 1 - e);
                    lemma_find_props(s, seq!['>'], g + 1);
                    if match_at(s, "</emoji"@, g + 1) {
                        match spec_find(s, seq!['>'], g + 1) {
                            Some(h) => {
                                lemma_expand_emoji_len(s, h + 1);
                            },
                            None => {
                                lemma_expand_emoji_len(s, g + 1);
                            },
                        }
                    } else {
                        lemma_expand_emoji_len(s, g + 1);
                    }
                },
            }
        },
    }
}

/// Normalization never lengthens a body: the wrapped stages only remove or
/// shrink material.
pub proof fn lemma_normalize_len(s: Seq<char>)
    ensures
        spec_normalize_body(s).len() <= s.len(),
{
    reveal_strlit("&nbsp;");
    reveal_strlit("&amp;");
    reveal_strlit("&lt;");
    reveal_strlit("&gt;");
    reveal_strlit("&quot;");
    reveal_strlit("&#39;");
    reveal_strlit("&apos;");
    reveal_strlit("&#160;");
    reveal_strlit("&nbsp");
    reveal_strlit(" ");
    reveal_strlit("&");
    reveal_strlit("<");
    reveal_strlit(">");
    reveal_strlit("\"");
    reveal_strlit("'");
    reveal_strlit("</p>");
    reveal_strlit("<p>");
    reveal_strlit("</div>");
    reveal_strlit("<div>");
    reveal_strlit("</li>");
    reveal_strlit("<li>");
    reveal_strlit("<br>");
    reveal_strlit("<br/>");
    reveal_strlit("<br />");
    reveal_strlit("</br>");
    reveal_strlit("\n");
    reveal_strlit("");
    lemma_drop_reference_len(s, 0);
    let a = spec_drop_reference_tags(s, 0);
    lemma_expand_emoji_len(a, 0);
    let b = spec_expand_emoji(a, 0);
    let b1 = spec_replace(b, "&nbsp;"@, " "@);
    let b2 = spec_replace(b1, "&amp;"@, "&"@);
    let b3 = spec_replace(b2, "&lt;"@, "<"@);
    let b4 = spec_replace(b3, "&gt;"@, ">"@);
    let b5 = spec_replace(b4, "&quot;"@, "\""@);
    let b6 = spec_replace(b5, "&#39;"@, "'"@);
    let b7 = spec_replace(b6, "&apos;"@, "'"@);
    let b8 = spec_replace(b7, "&#160;"@, " "@);
    lemma_replace_len(b, "&nbsp;"@, " "@);
    lemma_replace_len(b1, "&amp;"@, "&"@);
    lemma_replace_len(b2, "&lt;"@, "<"@);
    lemma_replace_len(b3, "&gt;"@, ">"@);
    lemma_replace_len(b4, "&quot;"@, "\""@);
    lemma_replace_len(b5, "&#39;"@, "'"@);
    lemma_replace_len(b6, "&apos;"@, "'"@);
    lemma_replace_len(b7, "&#160;"@, " "@);
    lemma_replace_len(b8, "&nbsp"@, " "@);
    let c = spec_decode_entities(b);
    let c1 = spec_replace(c, "</p>"@, "\n"@);
    let c2 = spec_replace(c1, "<p>"@, ""@);
    let c3 = spec_replace(c2, "</div>"@, "\n"@);
    let c4 = spec_replace(c3, "<div>"@, ""@);
    let c5 = spec_replace(c4, "</li>"@, "\n"@);
    let c6 = spec_replace(c5, "<li>"@, ""@);
    let c7 = spec_replace(c6, "<br>"@, "\n"@);
    let c8 = spec_replace(c7, "<br/>"@, "\n"@);
    let c9 = spec_replace(c8, "<br />"@, "\n"@);
    lemma_replace_len(c, "</p>"@, "\n"@);
    lemma_replace_len(c1, "<p>"@, ""@);
    lemma_replace_len(c2, "</div>"@, "\n"@);
    lemma_replace_len(c3, "<div>"@, ""@);
    lemma_replace_len(c4, "</li>"@, "\n"@);
    lemma_replace_len(c5, "<li>"@, ""@);
    lemma_replace_len(c6, "<br>"@, "\n"@);
    lemma_replace_len(c7, "<br/>"@, "\n"@);
    lemma_replace_len(c8, "<br />"@, "\n"@);
    lemma_replace_len(c9, "</br>"@, "\n"@);
    let d = spec_block_breaks(c);
    lemma_strip_tags_len(d, false);
    let e = spec_strip_tags(d, false);
    lemma_collapse_len(e, 0);
    let f = spec_collapse_nl(e, 0);
    lemma_trim_len(f);
}

} // verus!
