//! Assembly of the message pane: each message of the rendering window
//! becomes a header (when the sender or the calendar hour changes), wrapped
//! body lines, and one indicator line per attachment, all aligned to the
//! right for the local user's own messages.

use vstd::prelude::*;
use crate::api::{Message, MessageAttachment, spec_is_image, chars_to_string, str_eq};
use crate::colwidth::{seq_width, line_width, MAX_TEXT_LEN};
use crate::normalize::{spec_normalize_body, normalize_body, lemma_normalize_len};
use crate::timefmt::{TimeParts, rfc3339_parts, parse_rfc3339, spec_header_time, header_time,
    same_calendar_hour, check_same_calendar_hour};
use crate::textops::{str_chars, extend_range};
use crate::wrap::{spec_wrap_text, wrap_text, wrap_line_ok, MAX_PANE_WIDTH};

verus! {

/// What a display line is: a message header, a body line, an attachment
/// indicator, or the blank separator before a header group.
#[derive(Clone, Copy, PartialEq, Eq, Structural, Debug)]
pub enum LineKind {
    Header,
    Body,
    ImageIndicator,
    AttachmentIndicator,
    Separator,
}

/// One line of the message pane: its text, the left padding (in display
/// columns) that aligns it, and what kind of line it is.
#[derive(Debug, Clone)]
pub struct DisplayLine {
    pub text: String,
    pub pad_cols: usize,
    pub kind: LineKind,
}

/// The mathematical image of one display line.
pub ghost struct LineSpec {
    pub text: Seq<char>,
    pub pad: int,
    pub kind: LineKind,
}

/// The display line carries exactly this mathematical image.
pub open spec fn line_matches(d: DisplayLine, s: LineSpec) -> bool {
    d.text@ == s.text && d.pad_cols as int == s.pad && d.kind == s.kind
}

/// The sender name shown for a message.
pub open spec fn sender_of(m: Message) -> Seq<char> {
    match m.from {
        Some(f) => match f.user {
            Some(u) => match u.display_name {
                Some(n) => n@,
                None => "Unknown"@,
            },
            None => "Unknown"@,
        },
        None => "Unknown"@,
    }
}

/// The parsed timestamp of a message, when it parses.
pub open spec fn time_of(m: Message) -> Option<TimeParts> {
    rfc3339_parts(m.created_date_time@)
}

/// The raw body content of a message, empty when absent.
pub open spec fn content_of(m: Message) -> Seq<char> {
    match m.body {
        Some(b) => match b.content {
            Some(c) => c@,
            None => Seq::empty(),
        },
        None => Seq::empty(),
    }
}

/// A header is shown before a message exactly when its sender differs from
/// the previously rendered message's, or its timestamp falls in a different
/// calendar hour (timestamps that do not parse never open a gap).
pub open spec fn spec_show_header(
    sender: Seq<char>,
    t: Option<TimeParts>,
    prev_sender: Option<Seq<char>>,
    prev_t: Option<TimeParts>,
) -> bool {
    let same_sender = prev_sender == Some(sender);
    let gap = match (t, prev_t) {
        (Some(a), Some(b)) => !same_calendar_hour(a, b),
        _ => false,
    };
    !same_sender || gap
}

/// Two consecutive messages from the same sender within the same calendar
/// hour show no header for the second.
pub proof fn lemma_header_suppressed(
    sender: Seq<char>,
    t: TimeParts,
    prev_t: TimeParts,
)
    requires
        same_calendar_hour(t, prev_t),
    ensures
        !spec_show_header(sender, Some(t), Some(sender), Some(prev_t)),
{
}

/// The time label of a message: the formatted header time, or the raw
/// timestamp string when it does not parse.
pub open spec fn spec_date_label(m: Message) -> Seq<char> {
    match time_of(m) {
        Some(t) => spec_header_time(t),
        None => m.created_date_time@,
    }
}

/// The header text: time then `Me` for the local user's messages, else the
/// sender then the time.
pub open spec fn spec_header_text(m: Message, is_me: bool) -> Seq<char> {
    if is_me {
        spec_date_label(m) + seq![' '] + "Me"@
    } else {
        sender_of(m) + seq![' '] + spec_date_label(m)
    }
}

/// The left padding of a line: the local user's lines are pushed to the
/// right edge of the pane, all others keep none.
pub open spec fn pad_of(is_me: bool, width: int, text: Seq<char>) -> int {
    if is_me && width >= seq_width(text) {
        width - seq_width(text)
    } else {
        0
    }
}

/// The body lines of a message as display lines.
pub open spec fn body_line_specs(texts: Seq<Seq<char>>, is_me: bool, width: int) -> Seq<LineSpec> {
    texts.map_values(
        |t: Seq<char>| LineSpec { text: t, pad: pad_of(is_me, width, t), kind: LineKind::Body },
    )
}

/// The wrapped body of a message: empty content still occupies one empty
/// line, and so does content whose wrapping yields no line at all.
pub open spec fn spec_body_texts(m: Message, max_cols: int) -> Seq<Seq<char>> {
    let norm = spec_normalize_body(content_of(m));
    if norm.len() == 0 {
        seq![Seq::empty()]
    } else {
        let w = spec_wrap_text(norm, max_cols);
        if w.len() == 0 {
            seq![Seq::empty()]
        } else {
            w
        }
    }
}

/// The display name of an attachment, with its fixed fallback.
pub open spec fn attachment_label(a: MessageAttachment) -> Seq<char> {
    match a.name {
        Some(n) => n@,
        None => "image"@,
    }
}

/// The indicator text for an image attachment.
pub open spec fn spec_image_indicator_text(name: Seq<char>) -> Seq<char> {
    "\u{1f4f7} [Image: "@ + name + "]"@
}

/// The indicator text for a non-image attachment.
pub open spec fn spec_file_indicator_text(name: Seq<char>) -> Seq<char> {
    "\u{1f4ce} [Attachment: "@ + name + "]"@
}

/// One indicator line for each image attachment, in order.
pub open spec fn image_indicator_specs(
    atts: Seq<MessageAttachment>,
    is_me: bool,
    width: int,
) -> Seq<LineSpec>
    decreases atts.len(),
{
    if atts.len() == 0 {
        Seq::empty()
    } else {
        image_indicator_specs(atts.drop_last(), is_me, width) + (if spec_is_image(atts.last()) {
            let text = spec_image_indicator_text(attachment_label(atts.last()));
            seq![
                LineSpec {
                    text: text,
                    pad: pad_of(is_me, width, text),
                    kind: LineKind::ImageIndicator,
                },
            ]
        } else {
            Seq::empty()
        })
    }
}

/// One indicator line for each named non-image attachment, in order.
pub open spec fn file_indicator_specs(
    atts: Seq<MessageAttachment>,
    is_me: bool,
    width: int,
) -> Seq<LineSpec>
    decreases atts.len(),
{
    if atts.len() == 0 {
        Seq::empty()
    } else {
        file_indicator_specs(atts.drop_last(), is_me, width) + (if !spec_is_image(atts.last())
            && atts.last().name is Some {
            let text = spec_file_indicator_text(atts.last().name.unwrap()@);
            seq![
                LineSpec {
                    text: text,
                    pad: pad_of(is_me, width, text),
                    kind: LineKind::AttachmentIndicator,
                },
            ]
        } else {
            Seq::empty()
        })
    }
}

/// Whether a message counts as the local user's own.
pub open spec fn spec_is_me(m: Message, user: Option<String>) -> bool {
    match user {
        Some(u) => u@ == sender_of(m),
        None => false,
    }
}

/// All display lines of one message, given the previously rendered sender
/// and timestamp and whether any line was rendered before it: an optional
/// separator and header, the body lines, then the attachment indicators.
pub open spec fn spec_message_lines(
    m: Message,
    user: Option<String>,
    width: int,
    max_cols: int,
    prev_sender: Option<Seq<char>>,
    prev_t: Option<TimeParts>,
    first: bool,
) -> Seq<LineSpec> {
    let is_me = spec_is_me(m, user);
    let header_part = if spec_show_header(sender_of(m), time_of(m), prev_sender, prev_t) {
        let sep: Seq<LineSpec> = if !first {
            seq![LineSpec { text: Seq::empty(), pad: 0, kind: LineKind::Separator }]
        } else {
            Seq::empty()
        };
        let text = spec_header_text(m, is_me);
        sep + seq![
            LineSpec { text: text, pad: pad_of(is_me, width, text), kind: LineKind::Header },
        ]
    } else {
        Seq::empty()
    };
    header_part + body_line_specs(spec_body_texts(m, max_cols), is_me, width)
        + image_indicator_specs(m.attachments@, is_me, width) + file_indicator_specs(
        m.attachments@,
        is_me,
        width,
    )
}

/// The size limits under which a message can be laid out: the body fits the
/// wrap stage and the header and indicator parts stay within the width
/// computation's bound.
pub open spec fn msg_sizes_ok(m: Message) -> bool {
    &&& content_of(m).len() < MAX_TEXT_LEN
    &&& sender_of(m).len() < 0x100000
    &&& m.created_date_time@.len() < 0x100000
    &&& forall|j: int|
        0 <= j < m.attachments@.len() ==> attachment_label(#[trigger] m.attachments@[j]).len()
            < 0x100000
}


/// The previously rendered message's sender and timestamp, carried between
/// messages to decide header insertion.
pub struct RenderPrev {
    pub sender: Option<String>,
    pub t: Option<TimeParts>,
}

/// The sender view of the carried state.
pub open spec fn prev_sender_view(p: RenderPrev) -> Option<Seq<char>> {
    match p.sender {
        Some(s) => Some(s@),
        None => None,
    }
}

/// The output slice from `from` on carries exactly the line images `ls`.
pub open spec fn lines_match_from(out: Seq<DisplayLine>, from: int, ls: Seq<LineSpec>) -> bool {
    &&& out.len() == from + ls.len()
    &&& forall|j: int| 0 <= j < ls.len() ==> line_matches(#[trigger] out[from + j], ls[j])
}

/// Append one aligned line of the given kind.
fn push_line(out: &mut Vec<DisplayLine>, text: Vec<char>, is_me: bool, width: usize, kind: LineKind)
    requires
        text@.len() <= MAX_TEXT_LEN,
        width <= MAX_PANE_WIDTH,
    ensures
        final(out)@.len() == old(out)@.len() + 1,
        forall|j: int| 0 <= j < old(out)@.len() ==> final(out)@[j] == old(out)@[j],
        line_matches(
            final(out)@[old(out)@.len() as int],
            LineSpec { text: text@, pad: pad_of(is_me, width as int, text@), kind: kind },
        ),
{
    let w = line_width(&text);
    let pad: usize = if is_me && width >= w {
        width - w
    } else {
        0
    };
    let line = DisplayLine { text: chars_to_string(&text), pad_cols: pad, kind };
    out.push(line);
}

/// The sender name of a message, with its fixed fallback.
fn sender_name(m: &Message) -> (r: String)
    ensures
        r@ == sender_of(*m),
{
    match &m.from {
        Some(f) => match &f.user {
            Some(u) => match &u.display_name {
                Some(n) => n.clone(),
                None => "Unknown".to_owned(),
            },
            None => "Unknown".to_owned(),
        },
        None => "Unknown".to_owned(),
    }
}

/// All display lines of one message; `first` says whether nothing was
/// rendered before it. Returns the lines and the carried state for the next
/// message.
#[verifier::rlimit(80)]
fn message_lines(
    m: &Message,
    user: &Option<String>,
    width: usize,
    max_cols: usize,
    prev: &RenderPrev,
    first: bool,
) -> (r: (Vec<DisplayLine>, RenderPrev))
    requires
        msg_sizes_ok(*m),
        width <= MAX_PANE_WIDTH,
        max_cols <= MAX_PANE_WIDTH,
    ensures
        ({
            let ls = spec_message_lines(
                *m,
                *user,
                width as int,
                max_cols as int,
                prev_sender_view(*prev),
                prev.t,
                first,
            );
            &&& lines_match_from(r.0@, 0, ls)
            &&& forall|j: int|
                0 <= j < ls.len() && (#[trigger] ls[j]).kind == LineKind::Body ==> wrap_line_ok(
                    ls[j].text,
                    max_cols as int,
                )
        }),
        prev_sender_view(r.1) == Some(sender_of(*m)),
        r.1.t == time_of(*m),
{
    let ghost ls = spec_message_lines(
        *m,
        *user,
        width as int,
        max_cols as int,
        prev_sender_view(*prev),
        prev.t,
        first,
    );
    let mut out: Vec<DisplayLine> = Vec::new();
    let sender = sender_name(m);
    let t = parse_rfc3339(m.created_date_time.as_str());
    let is_me = match user {
        Some(u) => str_eq(u.as_str(), sender.as_str()),
        None => false,
    };
    proof {
        assert(is_me == spec_is_me(*m, *user));
    }
    let same_sender = match &prev.sender {
        Some(p) => str_eq(p.as_str(), sender.as_str()),
        None => false,
    };
    let gap = match (&t, &prev.t) {
        (Some(a), Some(b)) => !check_same_calendar_hour(a, b),
        _ => false,
    };
    let show_header = !same_sender || gap;
    proof {
        assert(same_sender == (prev_sender_view(*prev) == Some(sender_of(*m)))) by {
            match prev.sender {
                Some(p) => {},
                None => {},
            }
        }
        assert(show_header == spec_show_header(
            sender_of(*m),
            time_of(*m),
            prev_sender_view(*prev),
            prev.t,
        ));
    }
    let ghost header_part_len: int = if show_header {
        if first {
            1int
        } else {
            2int
        }
    } else {
        0int
    };
    if show_header {
        if !first {
            let empty_text: Vec<char> = Vec::new();
            push_line(&mut out, empty_text, false, width, LineKind::Separator);
        }
        let label: Vec<char> = match &t {
            Some(tp) => header_time(tp),
            None => str_chars(m.created_date_time.as_str()),
        };
        proof {
            assert(label@ == spec_date_label(*m));
        }
        let mut header: Vec<char> = Vec::new();
        if is_me {
            extend_range(&mut header, &label, 0, label.len());
            header.push(' ');
            let me_tag = str_chars("Me");
            extend_range(&mut header, &me_tag, 0, me_tag.len());
            proof {
                assert(label@.subrange(0, label@.len() as int) =~= label@);
                assert(me_tag@.subrange(0, me_tag@.len() as int) =~= me_tag@);
                assert(header@ =~= spec_header_text(*m, is_me));
                reveal_strlit("Me");
            }
        } else {
            let sv = str_chars(sender.as_str());
            extend_range(&mut header, &sv, 0, sv.len());
            header.push(' ');
            extend_range(&mut header, &label, 0, label.len());
            proof {
                assert(sv@.subrange(0, sv@.len() as int) =~= sv@);
                assert(label@.subrange(0, label@.len() as int) =~= label@);
                assert(header@ =~= spec_header_text(*m, is_me));
            }
        }
        push_line(&mut out, header, is_me, width, LineKind::Header);
    }
    proof {
        assert(lines_match_from(out@, 0, ls.subrange(0, header_part_len)));
    }
    let content: Vec<char> = match &m.body {
        Some(b) => match &b.content {
            Some(c) => str_chars(c.as_str()),
            None => Vec::new(),
        },
        None => Vec::new(),
    };
    proof {
        assert(content@ == content_of(*m));
    }
    let norm = normalize_body(&content);
    proof {
        lemma_normalize_len(content@);
    }
    let ghost body_texts = spec_body_texts(*m, max_cols as int);
    let ghost body_part = body_line_specs(body_texts, is_me, width as int);
    if norm.len() == 0 {
        let empty_text: Vec<char> = Vec::new();
        push_line(&mut out, empty_text, is_me, width, LineKind::Body);
        proof {
            assert(body_texts =~= seq![Seq::<char>::empty()]);
            assert(seq_width(body_texts[0]) == 0);
            assert(forall|k: int|
                0 <= k < body_texts.len() ==> wrap_line_ok(
                    #[trigger] body_texts[k],
                    max_cols as int,
                ));
        }
    } else {
        let wrapped = wrap_text(&norm, max_cols);
        if wrapped.len() == 0 {
            let empty_text: Vec<char> = Vec::new();
            push_line(&mut out, empty_text, is_me, width, LineKind::Body);
            proof {
                assert(spec_wrap_text(norm@, max_cols as int).len() == 0) by {
                    assert(wrapped@.map_values(|v: Vec<char>| v@).len() == 0);
                }
                assert(body_texts =~= seq![Seq::<char>::empty()]);
                assert(seq_width(body_texts[0]) == 0);
                assert(forall|k: int|
                    0 <= k < body_texts.len() ==> wrap_line_ok(
                        #[trigger] body_texts[k],
                        max_cols as int,
                    ));
            }
        } else {
            proof {
                assert(body_texts == spec_wrap_text(norm@, max_cols as int)) by {
                    assert(wrapped@.map_values(|v: Vec<char>| v@).len() == wrapped@.len());
                }
                assert forall|k: int| 0 <= k < body_texts.len() implies wrap_line_ok(
                    #[trigger] body_texts[k],
                    max_cols as int,
                ) by {
                    assert(body_texts[k] == wrapped@[k as int]@);
                    assert(wrap_line_ok(wrapped@[k as int]@, max_cols as int));
                }
            }
            let mut j: usize = 0;
            while j < wrapped.len()
                invariant
                    msg_sizes_ok(*m),
                    width <= MAX_PANE_WIDTH,
                    max_cols <= MAX_PANE_WIDTH,
                    norm@ == spec_normalize_body(content_of(*m)),
                    norm@.len() < MAX_TEXT_LEN,
                    body_texts == spec_wrap_text(norm@, max_cols as int),
                    body_texts == wrapped@.map_values(|v: Vec<char>| v@),
                    body_part == body_line_specs(body_texts, is_me, width as int),
                    ls == spec_message_lines(
                        *m,
                        *user,
                        width as int,
                        max_cols as int,
                        prev_sender_view(*prev),
                        prev.t,
                        first,
                    ),
                    header_part_len + body_texts.len() <= ls.len(),
                    forall|k: int|
                        0 <= k < header_part_len + j ==> line_matches(#[trigger] out@[k], ls[k]),
                    out@.len() == header_part_len + j,
                    j <= wrapped@.len(),
                    forall|k: int|
                        0 <= k < wrapped@.len() ==> (#[trigger] wrapped@[k])@.len()
                            <= norm@.len() + 1,
                    forall|k: int|
                        0 <= k < wrapped@.len() ==> wrap_line_ok(
                            (#[trigger] wrapped@[k])@,
                            max_cols as int,
                        ),
                    forall|k: int|
                        0 <= k < body_texts.len() ==> ls[header_part_len + k] == body_part[k],
                decreases wrapped@.len() - j,
            {
                let lw = &wrapped[j];
                let mut text: Vec<char> = Vec::new();
                extend_range(&mut text, lw, 0, lw.len());
                proof {
                    assert(text@ =~= lw@);
                    assert(wrapped@.map_values(|v: Vec<char>| v@)[j as int] == lw@);
                    assert(body_part[j as int] == LineSpec {
                        text: lw@,
                        pad: pad_of(is_me, width as int, lw@),
                        kind: LineKind::Body,
                    });
                }
                push_line(&mut out, text, is_me, width, LineKind::Body);
                j = j + 1;
            }
        }
    }
    proof {
        assert(out@.len() == header_part_len + body_texts.len());
        assert(forall|k: int|
            0 <= k < out@.len() ==> line_matches(#[trigger] out@[k], ls[k]));
    }
    let ghost base2 = header_part_len + body_texts.len();
    let atts = &m.attachments;
    let mut j: usize = 0;
    proof {
        assert(atts@.take(0) =~= Seq::<MessageAttachment>::empty());
        assert(image_indicator_specs(atts@.take(0), is_me, width as int) =~= Seq::<
            LineSpec,
        >::empty());
    }
    while j < atts.len()
        invariant
            msg_sizes_ok(*m),
            width <= MAX_PANE_WIDTH,
            atts@ == m.attachments@,
            j <= atts@.len(),
            base2 + image_indicator_specs(atts@, is_me, width as int).len() + file_indicator_specs(
                atts@,
                is_me,
                width as int,
            ).len() == ls.len(),
            ls == spec_message_lines(
                *m,
                *user,
                width as int,
                max_cols as int,
                prev_sender_view(*prev),
                prev.t,
                first,
            ),
            forall|k: int|
                0 <= k < image_indicator_specs(atts@, is_me, width as int).len() ==> ls[base2 + k]
                    == image_indicator_specs(atts@, is_me, width as int)[k],
            out@.len() == base2 + image_indicator_specs(atts@.take(j as int), is_me, width as int).len(),
            image_indicator_specs(atts@.take(j as int), is_me, width as int).len()
                <= image_indicator_specs(atts@, is_me, width as int).len(),
            image_indicator_specs(atts@.take(j as int), is_me, width as int)
                =~= image_indicator_specs(atts@, is_me, width as int).subrange(
                0,
                image_indicator_specs(atts@.take(j as int), is_me, width as int).len() as int,
            ),
            forall|k: int| 0 <= k < out@.len() ==> line_matches(#[trigger] out@[k], ls[k]),
        decreases atts@.len() - j,
    {
        proof {
            assert(atts@.take(j + 1).drop_last() =~= atts@.take(j as int));
            assert(atts@.take(j + 1).last() == atts@[j as int]);
            lemma_image_indicators_prefix(atts@, is_me, width as int, j as int);
            lemma_image_indicators_prefix(atts@, is_me, width as int, j + 1);
        }
        let a = &atts[j];
        let ghost img_full = image_indicator_specs(atts@, is_me, width as int);
        let ghost prev_cnt = image_indicator_specs(atts@.take(j as int), is_me, width as int).len();
        if a.is_image() {
            let name: Vec<char> = match &a.name {
                Some(n) => str_chars(n.as_str()),
                None => str_chars("image"),
            };
            proof {
                assert(name@ == attachment_label(atts@[j as int]));
            }
            let prefix = str_chars("\u{1f4f7} [Image: ");
            let mut text: Vec<char> = Vec::new();
            extend_range(&mut text, &prefix, 0, prefix.len());
            extend_range(&mut text, &name, 0, name.len());
            text.push(']');
            proof {
                assert(prefix@.subrange(0, prefix@.len() as int) =~= prefix@);
                assert(name@.subrange(0, name@.len() as int) =~= name@);
                reveal_strlit("\u{1f4f7} [Image: ");
                reveal_strlit("]");
                assert("]"@ =~= seq![']']);
                assert(text@ =~= spec_image_indicator_text(name@));
            }
            push_line(&mut out, text, is_me, width, LineKind::ImageIndicator);
            proof {
                let spec_text = spec_image_indicator_text(attachment_label(atts@[j as int]));
                let new_spec = LineSpec {
                    text: spec_text,
                    pad: pad_of(is_me, width as int, spec_text),
                    kind: LineKind::ImageIndicator,
                };
                assert(image_indicator_specs(atts@.take(j + 1), is_me, width as int)
                    =~= image_indicator_specs(atts@.take(j as int), is_me, width as int) + seq![
                    new_spec,
                ]);
                assert(image_indicator_specs(atts@.take(j + 1), is_me, width as int)[
                    prev_cnt as int] == img_full[prev_cnt as int]);
                assert(img_full[prev_cnt as int] == new_spec);
                assert(ls[base2 + prev_cnt] == new_spec);
                assert(text@ == spec_text);
                assert(line_matches(out@[base2 + prev_cnt], ls[base2 + prev_cnt]));
            }
        } else {
            proof {
                assert(image_indicator_specs(atts@.take(j + 1), is_me, width as int)
                    =~= image_indicator_specs(atts@.take(j as int), is_me, width as int));
            }
        }
        j = j + 1;
    }
    proof {
        assert(atts@.take(atts@.len() as int) =~= atts@);
    }
    let ghost base3 = base2 + image_indicator_specs(atts@, is_me, width as int).len();
    let mut j2: usize = 0;
    proof {
        assert(atts@.take(0) =~= Seq::<MessageAttachment>::empty());
        assert(file_indicator_specs(atts@.take(0), is_me, width as int) =~= Seq::<
            LineSpec,
        >::empty());
    }
    while j2 < atts.len()
        invariant
            msg_sizes_ok(*m),
            width <= MAX_PANE_WIDTH,
            atts@ == m.attachments@,
            j2 <= atts@.len(),
            base3 + file_indicator_specs(atts@, is_me, width as int).len() == ls.len(),
            ls == spec_message_lines(
                *m,
                *user,
                width as int,
                max_cols as int,
                prev_sender_view(*prev),
                prev.t,
                first,
            ),
            forall|k: int|
                0 <= k < file_indicator_specs(atts@, is_me, width as int).len() ==> ls[base3 + k]
                    == file_indicator_specs(atts@, is_me, width as int)[k],
            out@.len() == base3 + file_indicator_specs(atts@.take(j2 as int), is_me, width as int).len(),
            file_indicator_specs(atts@.take(j2 as int), is_me, width as int).len()
                <= file_indicator_specs(atts@, is_me, width as int).len(),
            file_indicator_specs(atts@.take(j2 as int), is_me, width as int)
                =~= file_indicator_specs(atts@, is_me, width as int).subrange(
                0,
                file_indicator_specs(atts@.take(j2 as int), is_me, width as int).len() as int,
            ),
            forall|k: int| 0 <= k < out@.len() ==> line_matches(#[trigger] out@[k], ls[k]),
        decreases atts@.len() - j2,
    {
        proof {
            assert(atts@.take(j2 + 1).drop_last() =~= atts@.take(j2 as int));
            assert(atts@.take(j2 + 1).last() == atts@[j2 as int]);
            lemma_file_indicators_prefix(atts@, is_me, width as int, j2 as int);
            lemma_file_indicators_prefix(atts@, is_me, width as int, j2 + 1);
        }
        let a = &atts[j2];
        let ghost fil_full = file_indicator_specs(atts@, is_me, width as int);
        let ghost prev_cnt2 = file_indicator_specs(atts@.take(j2 as int), is_me, width as int).len();
        let is_img = a.is_image();
        if !is_img {
            match &a.name {
                Some(n) => {
                    let name = str_chars(n.as_str());
                    proof {
                        assert(name@ == attachment_label(atts@[j2 as int]));
                    }
                    let prefix = str_chars("\u{1f4ce} [Attachment: ");
                    let mut text: Vec<char> = Vec::new();
                    extend_range(&mut text, &prefix, 0, prefix.len());
                    extend_range(&mut text, &name, 0, name.len());
                    text.push(']');
                    proof {
                        assert(prefix@.subrange(0, prefix@.len() as int) =~= prefix@);
                        assert(name@.subrange(0, name@.len() as int) =~= name@);
                        reveal_strlit("\u{1f4ce} [Attachment: ");
                        reveal_strlit("]");
                        assert("]"@ =~= seq![']']);
                        assert(text@ =~= spec_file_indicator_text(name@));
                    }
                    push_line(&mut out, text, is_me, width, LineKind::AttachmentIndicator);
                    proof {
                        let spec_text = spec_file_indicator_text(atts@[j2 as int].name.unwrap()@);
                        let new_spec = LineSpec {
                            text: spec_text,
                            pad: pad_of(is_me, width as int, spec_text),
                            kind: LineKind::AttachmentIndicator,
                        };
                        assert(file_indicator_specs(atts@.take(j2 + 1), is_me, width as int)
                            =~= file_indicator_specs(atts@.take(j2 as int), is_me, width as int)
                            + seq![new_spec]);
                        assert(file_indicator_specs(atts@.take(j2 + 1), is_me, width as int)[
                            prev_cnt2 as int] == fil_full[prev_cnt2 as int]);
                        assert(fil_full[prev_cnt2 as int] == new_spec);
                        assert(ls[base3 + prev_cnt2] == new_spec);
                        assert(text@ == spec_text);
                        assert(line_matches(out@[base3 + prev_cnt2], ls[base3 + prev_cnt2]));
                    }
                },
                None => {
                    proof {
                        assert(file_indicator_specs(atts@.take(j2 + 1), is_me, width as int)
                            =~= file_indicator_specs(atts@.take(j2 as int), is_me, width as int));
                    }
                },
            }
        } else {
            proof {
                assert(file_indicator_specs(atts@.take(j2 + 1), is_me, width as int)
                    =~= file_indicator_specs(atts@.take(j2 as int), is_me, width as int));
            }
        }
        j2 = j2 + 1;
    }
    proof {
        assert(atts@.take(atts@.len() as int) =~= atts@);
        assert(out@.len() == ls.len());
        lemma_indicator_kinds(atts@, is_me, width as int);
        assert forall|j3: int|
            0 <= j3 < ls.len() && (#[trigger] ls[j3]).kind == LineKind::Body implies wrap_line_ok(
            ls[j3].text,
            max_cols as int,
        ) by {
            let img = image_indicator_specs(atts@, is_me, width as int);
            let fil = file_indicator_specs(atts@, is_me, width as int);
            if j3 < header_part_len {
                assert(ls[j3].kind != LineKind::Body);
            } else if j3 < header_part_len + body_texts.len() {
                let k = j3 - header_part_len;
                assert(ls[j3] == body_line_specs(body_texts, is_me, width as int)[k]);
                assert(ls[j3].text == body_texts[k]);
                assert(wrap_line_ok(body_texts[k], max_cols as int));
            } else if j3 < base3 {
                assert(ls[j3] == img[j3 - base2]);
                assert(ls[j3].kind == LineKind::ImageIndicator);
            } else {
                assert(ls[j3] == fil[j3 - base3]);
                assert(ls[j3].kind == LineKind::AttachmentIndicator);
            }
        }
    }
    let np = RenderPrev { sender: Some(sender), t };
    (out, np)
}

/// The image indicators of a prefix are a prefix of the image indicators.
proof fn lemma_image_indicators_prefix(
    atts: Seq<MessageAttachment>,
    is_me: bool,
    width: int,
    j: int,
)
    requires
        0 <= j <= atts.len(),
    ensures
        image_indicator_specs(atts.take(j), is_me, width).len() <= image_indicator_specs(
            atts,
            is_me,
            width,
        ).len(),
        image_indicator_specs(atts.take(j), is_me, width) =~= image_indicator_specs(
            atts,
            is_me,
            width,
        ).subrange(0, image_indicator_specs(atts.take(j), is_me, width).len() as int),
    decreases atts.len() - j,
{
    if j == atts.len() {
        assert(atts.take(j) =~= atts);
        assert(image_indicator_specs(atts, is_me, width).subrange(
            0,
            image_indicator_specs(atts, is_me, width).len() as int,
        ) =~= image_indicator_specs(atts, is_me, width));
    } else {
        lemma_image_indicators_prefix(atts, is_me, width, j + 1);
        assert(atts.take(j + 1).drop_last() =~= atts.take(j));
        assert(atts.take(j + 1).last() == atts[j]);
    }
}

/// The file indicators of a prefix are a prefix of the file indicators.
proof fn lemma_file_indicators_prefix(
    atts: Seq<MessageAttachment>,
    is_me: bool,
    width: int,
    j: int,
)
    requires
        0 <= j <= atts.len(),
    ensures
        file_indicator_specs(atts.take(j), is_me, width).len() <= file_indicator_specs(
            atts,
            is_me,
            width,
        ).len(),
        file_indicator_specs(atts.take(j), is_me, width) =~= file_indicator_specs(
            atts,
            is_me,
            width,
        ).subrange(0, file_indicator_specs(atts.take(j), is_me, width).len() as int),
    decreases atts.len() - j,
{
    if j == atts.len() {
        assert(atts.take(j) =~= atts);
        assert(file_indicator_specs(atts, is_me, width).subrange(
            0,
            file_indicator_specs(atts, is_me, width).len() as int,
        ) =~= file_indicator_specs(atts, is_me, width));
    } else {
        lemma_file_indicators_prefix(atts, is_me, width, j + 1);
        assert(atts.take(j + 1).drop_last() =~= atts.take(j));
        assert(atts.take(j + 1).last() == atts[j]);
    }
}

/// Indicator lines are never body lines.
proof fn lemma_indicator_kinds(atts: Seq<MessageAttachment>, is_me: bool, width: int)
    ensures
        forall|k: int|
            0 <= k < image_indicator_specs(atts, is_me, width).len() ==> (
            #[trigger] image_indicator_specs(atts, is_me, width)[k]).kind
                == LineKind::ImageIndicator,
        forall|k: int|
            0 <= k < file_indicator_specs(atts, is_me, width).len() ==> (
            #[trigger] file_indicator_specs(atts, is_me, width)[k]).kind
                == LineKind::AttachmentIndicator,
    decreases atts.len(),
{
    if atts.len() > 0 {
        lemma_indicator_kinds(atts.drop_last(), is_me, width);
    }
}


/// The rendering window: only the most recent hundred messages (the list
/// arrives newest first), shown oldest first.
pub open spec fn render_window(msgs: Seq<Message>) -> Seq<Message> {
    if msgs.len() <= 100 {
        msgs.reverse()
    } else {
        msgs.take(100).reverse()
    }
}

/// The renderer's state after some messages of the window: the lines so far
/// and the previously rendered sender and timestamp.
pub ghost struct RenderState {
    pub lines: Seq<LineSpec>,
    pub prev_sender: Option<Seq<char>>,
    pub prev_t: Option<TimeParts>,
}

/// The renderer's state after the first `k` messages of the window `w`.
pub open spec fn spec_render_state(
    w: Seq<Message>,
    user: Option<String>,
    width: int,
    max_cols: int,
    k: int,
) -> RenderState
    decreases k,
{
    if k <= 0 {
        RenderState { lines: Seq::empty(), prev_sender: None, prev_t: None }
    } else {
        let st = spec_render_state(w, user, width, max_cols, k - 1);
        let m = w[k - 1];
        let ml = spec_message_lines(
            m,
            user,
            width,
            max_cols,
            st.prev_sender,
            st.prev_t,
            st.lines.len() == 0,
        );
        RenderState {
            lines: st.lines + ml,
            prev_sender: Some(sender_of(m)),
            prev_t: time_of(m),
        }
    }
}

/// All lines of the message pane for a message list.
pub open spec fn spec_message_pane(
    msgs: Seq<Message>,
    user: Option<String>,
    width: int,
    max_cols: int,
) -> Seq<LineSpec> {
    let w = render_window(msgs);
    spec_render_state(w, user, width, max_cols, w.len() as int).lines
}

/// Render the message pane: the most recent hundred messages, oldest first,
/// as headers, wrapped and aligned body lines, and attachment indicators.
pub fn build_message_lines(
    messages: &Vec<Message>,
    current_user_name: &Option<String>,
    width: usize,
    max_cols: usize,
) -> (r: Vec<DisplayLine>)
    requires
        forall|i: int| 0 <= i < messages@.len() ==> msg_sizes_ok(#[trigger] messages@[i]),
        width <= MAX_PANE_WIDTH,
        max_cols <= MAX_PANE_WIDTH,
    ensures
        ({
            let pane = spec_message_pane(messages@, *current_user_name, width as int, max_cols as int);
            &&& lines_match_from(r@, 0, pane)
            &&& forall|j: int|
                0 <= j < pane.len() && (#[trigger] pane[j]).kind == LineKind::Body
                    ==> wrap_line_ok(pane[j].text, max_cols as int)
        }),
{
    let ghost w = render_window(messages@);
    let win: usize = if messages.len() <= 100 {
        messages.len()
    } else {
        100
    };
    proof {
        assert(w.len() == win);
        if messages@.len() <= 100 {
            assert(forall|k: int|
                0 <= k < win ==> #[trigger] w[k] == messages@[win - 1 - k]);
        } else {
            assert(forall|k: int|
                0 <= k < win ==> #[trigger] messages@.take(100)[win - 1 - k] == messages@[win - 1
                    - k]);
            assert(forall|k: int|
                0 <= k < win ==> #[trigger] w[k] == messages@[win - 1 - k]);
        }
    }
    let mut out: Vec<DisplayLine> = Vec::new();
    let mut prev = RenderPrev { sender: None, t: None };
    let mut k: usize = 0;
    while k < win
        invariant
            w == render_window(messages@),
            w.len() == win,
            win <= messages@.len(),
            forall|k2: int| 0 <= k2 < win ==> #[trigger] w[k2] == messages@[win - 1 - k2],
            forall|i: int| 0 <= i < messages@.len() ==> msg_sizes_ok(#[trigger] messages@[i]),
            width <= MAX_PANE_WIDTH,
            max_cols <= MAX_PANE_WIDTH,
            k <= win,
            ({
                let st = spec_render_state(
                    w,
                    *current_user_name,
                    width as int,
                    max_cols as int,
                    k as int,
                );
                &&& lines_match_from(out@, 0, st.lines)
                &&& prev_sender_view(prev) == st.prev_sender
                &&& prev.t == st.prev_t
                &&& forall|j: int|
                    0 <= j < st.lines.len() && (#[trigger] st.lines[j]).kind == LineKind::Body
                        ==> wrap_line_ok(st.lines[j].text, max_cols as int)
            }),
        decreases win - k,
    {
        let ghost st = spec_render_state(w, *current_user_name, width as int, max_cols as int, k as int);
        let idx = win - 1 - k;
        let m = &messages[idx];
        proof {
            assert(*m == w[k as int]);
            assert(msg_sizes_ok(w[k as int]));
        }
        let first = out.len() == 0;
        let ghost out0 = out@;
        let (mut part, np) = message_lines(m, current_user_name, width, max_cols, &prev, first);
        let ghost ml = spec_message_lines(
            w[k as int],
            *current_user_name,
            width as int,
            max_cols as int,
            st.prev_sender,
            st.prev_t,
            st.lines.len() == 0,
        );
        proof {
            assert(first == (st.lines.len() == 0));
            assert(lines_match_from(part@, 0, ml));
        }
        let ghost part0 = part@;
        out.append(&mut part);
        proof {
            let st2 = spec_render_state(
                w,
                *current_user_name,
                width as int,
                max_cols as int,
                k + 1,
            );
            assert(st2.lines == st.lines + ml);
            assert(out@ == out0 + part0);
            assert forall|j: int| 0 <= j < st2.lines.len() implies line_matches(
                #[trigger] out@[j],
                st2.lines[j],
            ) by {
                if j < st.lines.len() {
                    assert(line_matches(out0[0 + j], st.lines[j]));
                    assert(out@[j] == out0[j]);
                    assert(st2.lines[j] == st.lines[j]);
                } else {
                    assert(st2.lines[j] == ml[j - st.lines.len()]);
                    assert(line_matches(part0[0 + (j - st.lines.len())], ml[j - st.lines.len()]));
                    assert(out@[j] == part0[j - st.lines.len()]);
                }
            }
            assert forall|j: int|
                0 <= j < st2.lines.len() && (#[trigger] st2.lines[j]).kind == LineKind::Body
                    implies wrap_line_ok(st2.lines[j].text, max_cols as int) by {
                if j < st.lines.len() {
                    assert(st2.lines[j] == st.lines[j]);
                } else {
                    assert(st2.lines[j] == ml[j - st.lines.len()]);
                }
            }
        }
        prev = np;
        k = k + 1;
    }
    out
}

/// Rendering is a pure function: any two outputs that meet the renderer's
/// contract for the same messages, user and widths are the same lines.
pub proof fn lemma_render_deterministic(
    msgs: Seq<Message>,
    user: Option<String>,
    width: int,
    max_cols: int,
    r1: Seq<DisplayLine>,
    r2: Seq<DisplayLine>,
)
    requires
        lines_match_from(r1, 0, spec_message_pane(msgs, user, width, max_cols)),
        lines_match_from(r2, 0, spec_message_pane(msgs, user, width, max_cols)),
    ensures
        r1.len() == r2.len(),
        forall|i: int|
            0 <= i < r1.len() ==> (#[trigger] r1[i]).text@ == r2[i].text@ && r1[i].pad_cols
                == r2[i].pad_cols && r1[i].kind == r2[i].kind,
{
    let pane = spec_message_pane(msgs, user, width, max_cols);
    assert forall|i: int|
        0 <= i < r1.len() implies (#[trigger] r1[i]).text@ == r2[i].text@ && r1[i].pad_cols
            == r2[i].pad_cols && r1[i].kind == r2[i].kind by {
        assert(line_matches(r1[0 + i], pane[i]));
        assert(line_matches(r2[0 + i], pane[i]));
    }
}


/// Whether a message is within the renderer's size bounds, so callers
/// outside the proof can test before rendering.
pub fn check_msg_sizes(m: &Message) -> (r: bool)
    ensures
        r == msg_sizes_ok(*m),
{
    let content_len: usize = match &m.body {
        Some(b) => match &b.content {
            Some(c) => c.as_str().unicode_len(),
            None => 0,
        },
        None => 0,
    };
    if content_len >= MAX_TEXT_LEN {
        return false;
    }
    let sender = sender_name(m);
    if sender.as_str().unicode_len() >= 0x100000 {
        return false;
    }
    if m.created_date_time.as_str().unicode_len() >= 0x100000 {
        return false;
    }
    let mut j: usize = 0;
    let atts = &m.attachments;
    while j < atts.len()
        invariant
            atts@ == m.attachments@,
            j <= atts@.len(),
            forall|k: int|
                0 <= k < j ==> attachment_label(#[trigger] atts@[k]).len() < 0x100000,
        decreases atts@.len() - j,
    {
        let label_len: usize = match &atts[j].name {
            Some(n) => n.as_str().unicode_len(),
            None => {
                proof {
                    reveal_strlit("image");
                }
                5
            },
        };
        proof {
            reveal_strlit("image");
            assert(label_len == attachment_label(atts@[j as int]).len());
        }
        if label_len >= 0x100000 {
            return false;
        }
        j = j + 1;
    }
    true
}

} // verus!
