//! Pane-level computations of the interface: chat-list row labels, the
//! message pane's width budget, the status line with its image counter, the
//! image viewer's title and popup geometry.

use vstd::prelude::*;
use crate::api::{Chat, chars_to_string};
use crate::app::PaneRect;
use crate::numfmt::{decimal_chars, spec_decimal};
use crate::textops::{str_chars, extend_range};
use crate::wrap::MAX_PANE_WIDTH;

verus! {

/// The label of one chat-list row: the chat's kind in brackets, then its
/// display name or a fixed placeholder.
pub open spec fn spec_chat_row_label(c: Chat) -> Seq<char> {
    seq!['['] + c.chat_type@ + "] "@ + (match c.cached_display_name {
        Some(n) => n@,
        None => "Unknown"@,
    })
}

/// Compose the label of one chat-list row.
pub fn chat_row_label(c: &Chat) -> (r: String)
    ensures
        r@ == spec_chat_row_label(*c),
{
    let ty = str_chars(c.chat_type.as_str());
    let name = match &c.cached_display_name {
        Some(n) => str_chars(n.as_str()),
        None => str_chars("Unknown"),
    };
    let mid = str_chars("] ");
    let mut out: Vec<char> = Vec::new();
    out.push('[');
    extend_range(&mut out, &ty, 0, ty.len());
    extend_range(&mut out, &mid, 0, mid.len());
    extend_range(&mut out, &name, 0, name.len());
    proof {
        assert(ty@.subrange(0, ty@.len() as int) =~= ty@);
        assert(mid@.subrange(0, mid@.len() as int) =~= mid@);
        assert(name@.subrange(0, name@.len() as int) =~= name@);
        assert(out@ =~= spec_chat_row_label(*c));
    }
    chars_to_string(&out)
}

/// The text budget of the message pane: the usable width (the pane minus the
/// borders and one padding column) and the wrap target of nine tenths of it.
pub fn message_pane_widths(area_width: u16) -> (r: (usize, usize))
    ensures
        r.0 == (if area_width >= 3 {
            area_width - 3
        } else {
            0
        }),
        r.1 == r.0 * 9 / 10,
        r.0 <= MAX_PANE_WIDTH,
        r.1 <= MAX_PANE_WIDTH,
{
    let width: usize = if area_width >= 3 {
        (area_width - 3) as usize
    } else {
        0
    };
    let max_cols: usize = width * 9 / 10;
    (width, max_cols)
}

/// The viewport height of the message pane: the pane minus its border rows.
pub fn viewport_height(area_height: u16) -> (r: u16)
    ensures
        r == (if area_height >= 2 {
            area_height - 2
        } else {
            0
        }),
{
    if area_height >= 2 {
        area_height - 2
    } else {
        0
    }
}

/// The status line: the plain status text, or, when viewable images exist,
/// the status followed by the one-based image counter and the browsing hint.
pub open spec fn spec_status_line(status: Seq<char>, n_images: int, selected: int) -> Seq<char> {
    if n_images > 0 {
        status + " | Images: "@ + spec_decimal((selected + 1) as nat) + seq!['/'] + spec_decimal(
            n_images as nat,
        ) + " (\u{2190}/\u{2192} to browse, v to view externally)"@
    } else {
        status
    }
}

/// Compose the status line.
pub fn status_line(status: &str, n_images: usize, selected: usize) -> (r: String)
    requires
        n_images > 0 ==> selected < n_images,
    ensures
        r@ == spec_status_line(status@, n_images as int, selected as int),
{
    if n_images == 0 {
        let sv = str_chars(status);
        return chars_to_string(&sv);
    }
    let sv = str_chars(status);
    let mid = str_chars(" | Images: ");
    let cur = decimal_chars((selected + 1) as u64);
    let total = decimal_chars(n_images as u64);
    let hint = str_chars(" (\u{2190}/\u{2192} to browse, v to view externally)");
    let mut out: Vec<char> = Vec::new();
    extend_range(&mut out, &sv, 0, sv.len());
    extend_range(&mut out, &mid, 0, mid.len());
    extend_range(&mut out, &cur, 0, cur.len());
    out.push('/');
    extend_range(&mut out, &total, 0, total.len());
    extend_range(&mut out, &hint, 0, hint.len());
    proof {
        assert(sv@.subrange(0, sv@.len() as int) =~= sv@);
        assert(mid@.subrange(0, mid@.len() as int) =~= mid@);
        assert(cur@.subrange(0, cur@.len() as int) =~= cur@);
        assert(total@.subrange(0, total@.len() as int) =~= total@);
        assert(hint@.subrange(0, hint@.len() as int) =~= hint@);
        assert(out@ =~= spec_status_line(status@, n_images as int, selected as int));
    }
    chars_to_string(&out)
}

/// The image viewer's title: the image's name with a navigation hint when
/// several images can be browsed, or the fixed fallback title.
pub open spec fn spec_viewer_title(
    name: Option<Seq<char>>,
    n_images: int,
    selected: int,
) -> Seq<char> {
    match name {
        Some(n) => "Image: "@ + n + (if n_images > 1 {
            " ("@ + spec_decimal((selected + 1) as nat) + seq!['/'] + spec_decimal(
                n_images as nat,
            )
                + ") - \u{2190}/\u{2192} to navigate, ESC to close, 'o' to open externally"@
        } else {
            " - ESC to close, 'o' to open externally"@
        }),
        None => "Image Viewer - ESC to close, 'o' to open externally"@,
    }
}

/// Compose the image viewer's title.
pub fn viewer_title(name: Option<&str>, n_images: usize, selected: usize) -> (r: String)
    requires
        n_images > 1 ==> selected < n_images,
    ensures
        r@ == spec_viewer_title(
            match name {
                Some(n) => Some(n@),
                None => None,
            },
            n_images as int,
            selected as int,
        ),
{
    match name {
        None => "Image Viewer - ESC to close, 'o' to open externally".to_owned(),
        Some(n) => {
            let pre = str_chars("Image: ");
            let nv = str_chars(n);
            let mut out: Vec<char> = Vec::new();
            extend_range(&mut out, &pre, 0, pre.len());
            extend_range(&mut out, &nv, 0, nv.len());
            proof {
                assert(pre@.subrange(0, pre@.len() as int) =~= pre@);
                assert(nv@.subrange(0, nv@.len() as int) =~= nv@);
            }
            if n_images > 1 {
                let open = str_chars(" (");
                let cur = decimal_chars((selected + 1) as u64);
                let total = decimal_chars(n_images as u64);
                let hint = str_chars(
                    ") - \u{2190}/\u{2192} to navigate, ESC to close, 'o' to open externally",
                );
                extend_range(&mut out, &open, 0, open.len());
                extend_range(&mut out, &cur, 0, cur.len());
                out.push('/');
                extend_range(&mut out, &total, 0, total.len());
                extend_range(&mut out, &hint, 0, hint.len());
                proof {
                    assert(open@.subrange(0, open@.len() as int) =~= open@);
                    assert(cur@.subrange(0, cur@.len() as int) =~= cur@);
                    assert(total@.subrange(0, total@.len() as int) =~= total@);
                    assert(hint@.subrange(0, hint@.len() as int) =~= hint@);
                    assert(out@ =~= spec_viewer_title(
                        Some(n@),
                        n_images as int,
                        selected as int,
                    ));
                }
            } else {
                let hint = str_chars(" - ESC to close, 'o' to open externally");
                extend_range(&mut out, &hint, 0, hint.len());
                proof {
                    assert(hint@.subrange(0, hint@.len() as int) =~= hint@);
                    assert(out@ =~= spec_viewer_title(
                        Some(n@),
                        n_images as int,
                        selected as int,
                    ));
                }
            }
            chars_to_string(&out)
        },
    }
}

/// The centered popup of the image viewer: eight tenths of the screen in
/// each dimension, centered.
pub fn popup_rect(area: PaneRect) -> (r: PaneRect)
    ensures
        r.width == area.width * 8 / 10,
        r.height == area.height * 8 / 10,
        r.x == (area.width - r.width) / 2,
        r.y == (area.height - r.height) / 2,
{
    let pw: u16 = ((area.width as u32) * 8 / 10) as u16;
    let ph: u16 = ((area.height as u32) * 8 / 10) as u16;
    let px: u16 = (area.width - pw) / 2;
    let py: u16 = (area.height - ph) / 2;
    PaneRect { x: px, y: py, width: pw, height: ph }
}

} // verus!
