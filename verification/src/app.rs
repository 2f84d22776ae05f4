//! The view state of the client, owned by the single UI thread, and every
//! rule that mutates it: selection, composing, scrolling, the image viewer,
//! and the reconciliation of background fetch results.

use vstd::prelude::*;
use crate::api::{Chat, Message, spec_is_image, str_eq};
use crate::image_display::{ImageCache, ImagePicker};
use crate::numfmt::{decimal_chars, spec_decimal};
use crate::textops::extend_range;

verus! {

/// Which pane the mouse last activated.
#[derive(Clone, Copy, PartialEq, Eq, Structural, Debug)]
pub enum ActivePane {
    ChatList,
    Messages,
}

/// Which pane holds the keyboard focus.
#[derive(Clone, Copy, PartialEq, Eq, Structural, Debug)]
pub enum FocusedPane {
    ChatList,
    Messages,
}

/// An image exposed for interactive viewing: its display name and the URL
/// to fetch it from.
#[derive(Debug, Clone)]
pub struct ViewableImage {
    pub name: String,
    pub url: String,
}

/// A rectangle of the terminal, in cells.
#[derive(Clone, Copy, PartialEq, Eq, Structural, Debug)]
pub struct PaneRect {
    pub x: u16,
    pub y: u16,
    pub width: u16,
    pub height: u16,
}

impl PaneRect {
    /// The empty rectangle at the origin.
    pub fn zero() -> (r: PaneRect)
        ensures
            r == (PaneRect { x: 0, y: 0, width: 0, height: 0 }),
    {
        PaneRect { x: 0, y: 0, width: 0, height: 0 }
    }

    /// Whether a cell lies inside this rectangle.
    pub fn hit(&self, cx: u16, cy: u16) -> (r: bool)
        ensures
            r == (self.x <= cx < self.x + self.width && self.y <= cy < self.y + self.height),
    {
        cx >= self.x && (cx as u32) < self.x as u32 + self.width as u32 && cy >= self.y && (
        cy as u32) < self.y as u32 + self.height as u32
    }
}

/// The mathematical image of one viewable image.
pub ghost struct ViewableSpec {
    pub name: Seq<char>,
    pub url: Seq<char>,
}

/// The viewable image carries exactly this mathematical image.
pub open spec fn viewable_matches(v: ViewableImage, s: ViewableSpec) -> bool {
    v.name@ == s.name && v.url@ == s.url
}

/// The resolved URL of an attachment: thumbnail first, else content.
pub open spec fn spec_attachment_url(a: crate::api::MessageAttachment) -> Option<Seq<char>> {
    match a.thumbnail_url {
        Some(t) => Some(t@),
        None => match a.content_url {
            Some(c) => Some(c@),
            None => None,
        },
    }
}

/// The viewable images of one attachment list, in order: image attachments
/// with a resolved URL.
pub open spec fn spec_attachment_viewables(atts: Seq<crate::api::MessageAttachment>) -> Seq<
    ViewableSpec,
>
    decreases atts.len(),
{
    if atts.len() == 0 {
        Seq::empty()
    } else {
        spec_attachment_viewables(atts.drop_last()) + (if spec_is_image(atts.last())
            && spec_attachment_url(atts.last()) is Some {
            seq![
                ViewableSpec {
                    name: (match atts.last().name {
                        Some(n) => n@,
                        None => "image"@,
                    }),
                    url: spec_attachment_url(atts.last()).unwrap(),
                },
            ]
        } else {
            Seq::empty()
        })
    }
}

/// The viewable images of a message list, in message order then attachment
/// order.
pub open spec fn spec_viewables(msgs: Seq<Message>) -> Seq<ViewableSpec>
    decreases msgs.len(),
{
    if msgs.len() == 0 {
        Seq::empty()
    } else {
        spec_viewables(msgs.drop_last()) + spec_attachment_viewables(msgs.last().attachments@)
    }
}

/// The vector carries exactly these viewable images.
pub open spec fn viewables_match(vs: Seq<ViewableImage>, ss: Seq<ViewableSpec>) -> bool {
    vs.len() == ss.len() && forall|i: int|
        0 <= i < ss.len() ==> viewable_matches(#[trigger] vs[i], ss[i])
}

/// The viewable images of a prefix are a prefix of the whole's.
proof fn lemma_viewables_prefix(msgs: Seq<Message>, k: int)
    requires
        0 <= k <= msgs.len(),
    ensures
        spec_viewables(msgs.take(k)).len() <= spec_viewables(msgs).len(),
        spec_viewables(msgs.take(k)) =~= spec_viewables(msgs).subrange(
            0,
            spec_viewables(msgs.take(k)).len() as int,
        ),
    decreases msgs.len() - k,
{
    if k == msgs.len() {
        assert(msgs.take(k) =~= msgs);
        assert(spec_viewables(msgs).subrange(0, spec_viewables(msgs).len() as int)
            =~= spec_viewables(msgs));
    } else {
        lemma_viewables_prefix(msgs, k + 1);
        assert(msgs.take(k + 1).drop_last() =~= msgs.take(k));
        assert(msgs.take(k + 1).last() == msgs[k]);
    }
}

/// Collect the viewable images of a message list.
pub fn collect_viewables(msgs: &Vec<Message>) -> (r: Vec<ViewableImage>)
    ensures
        viewables_match(r@, spec_viewables(msgs@)),
{
    let mut out: Vec<ViewableImage> = Vec::new();
    let mut i: usize = 0;
    proof {
        assert(msgs@.take(0) =~= Seq::<Message>::empty());
    }
    while i < msgs.len()
        invariant
            i <= msgs@.len(),
            viewables_match(out@, spec_viewables(msgs@.take(i as int))),
            spec_viewables(msgs@.take(i as int)).len() <= spec_viewables(msgs@).len(),
            spec_viewables(msgs@.take(i as int)) =~= spec_viewables(msgs@).subrange(
                0,
                spec_viewables(msgs@.take(i as int)).len() as int,
            ),
        decreases msgs@.len() - i,
    {
        proof {
            assert(msgs@.take(i + 1).drop_last() =~= msgs@.take(i as int));
            assert(msgs@.take(i + 1).last() == msgs@[i as int]);
            lemma_viewables_prefix(msgs@, i as int);
            lemma_viewables_prefix(msgs@, i + 1);
        }
        let atts = &msgs[i].attachments;
        let ghost base = spec_viewables(msgs@.take(i as int));
        let mut j: usize = 0;
        proof {
            assert(atts@.take(0) =~= Seq::<crate::api::MessageAttachment>::empty());
            assert(base + spec_attachment_viewables(atts@.take(0)) =~= base);
        }
        while j < atts.len()
            invariant
                i < msgs@.len(),
                atts@ == msgs@[i as int].attachments@,
                base == spec_viewables(msgs@.take(i as int)),
                j <= atts@.len(),
                viewables_match(out@, base + spec_attachment_viewables(atts@.take(j as int))),
            decreases atts@.len() - j,
        {
            proof {
                assert(atts@.take(j + 1).drop_last() =~= atts@.take(j as int));
                assert(atts@.take(j + 1).last() == atts@[j as int]);
            }
            let a = &atts[j];
            if a.is_image() {
                let url_opt: Option<String> = match &a.thumbnail_url {
                    Some(t) => Some(t.clone()),
                    None => match &a.content_url {
                        Some(c) => Some(c.clone()),
                        None => None,
                    },
                };
                match url_opt {
                    Some(u) => {
                        let name: String = match &a.name {
                            Some(n) => n.clone(),
                            None => "image".to_owned(),
                        };
                        let v = ViewableImage { name, url: u };
                        proof {
                            assert(spec_attachment_url(atts@[j as int]) is Some);
                            assert(viewable_matches(
                                v,
                                ViewableSpec {
                                    name: (match atts@[j as int].name {
                                        Some(n) => n@,
                                        None => "image"@,
                                    }),
                                    url: spec_attachment_url(atts@[j as int]).unwrap(),
                                },
                            ));
                            assert(base + spec_attachment_viewables(atts@.take(j + 1)) =~= (base
                                + spec_attachment_viewables(atts@.take(j as int))).push(
                                ViewableSpec {
                                    name: (match atts@[j as int].name {
                                        Some(n) => n@,
                                        None => "image"@,
                                    }),
                                    url: spec_attachment_url(atts@[j as int]).unwrap(),
                                },
                            ));
                        }
                        out.push(v);
                    },
                    None => {
                        proof {
                            assert(spec_attachment_url(atts@[j as int]) is None);
                            assert(base + spec_attachment_viewables(atts@.take(j + 1)) =~= base
                                + spec_attachment_viewables(atts@.take(j as int)));
                        }
                    },
                }
            } else {
                proof {
                    assert(base + spec_attachment_viewables(atts@.take(j + 1)) =~= base
                        + spec_attachment_viewables(atts@.take(j as int)));
                }
            }
            j = j + 1;
        }
        proof {
            assert(atts@.take(atts@.len() as int) =~= atts@);
            assert(spec_viewables(msgs@.take(i + 1)) =~= base + spec_attachment_viewables(atts@));
        }
        i = i + 1;
    }
    proof {
        assert(msgs@.take(msgs@.len() as int) =~= msgs@);
    }
    out
}


/// A keyboard input, as the terminal layer hands it to the core.
#[derive(Clone, Copy, PartialEq, Eq, Structural, Debug)]
pub enum KeyInput {
    Esc,
    Enter,
    Backspace,
    Up,
    Down,
    Left,
    Right,
    PageUp,
    PageDown,
    Char(char),
}

/// A mouse input kind the core reacts to.
#[derive(Clone, Copy, PartialEq, Eq, Structural, Debug)]
pub enum MouseKind {
    LeftDown,
    ScrollUp,
    ScrollDown,
}

/// What the control loop must do after a key was handled: nothing, quit,
/// fetch a chat's messages, send a message, or download an image.
#[derive(Debug)]
pub enum UiAction {
    DoNothing,
    Quit,
    LoadMessages { chat_id: String, chat_index: usize },
    SendMessage { chat_id: String, chat_index: usize, text: String },
    DownloadImage { url: String },
}

/// The whole view state, owned by the single UI thread.
pub struct App {
    pub chats: Vec<Chat>,
    pub status: String,
    pub selected_index: usize,
    pub current_user_name: Option<String>,
    pub messages: Vec<Message>,
    pub loading_messages: bool,
    pub input_mode: bool,
    pub input_buffer: String,
    pub scroll_offset: u16,
    pub max_scroll: u16,
    pub snap_to_bottom: bool,
    pub active_pane: ActivePane,
    pub focused_pane: FocusedPane,
    pub chat_list_area: PaneRect,
    pub messages_area: PaneRect,
    pub image_picker: Option<ImagePicker>,
    pub image_cache: ImageCache,
    pub image_protocols: Vec<(String, ratatui_image::protocol::StatefulProtocol)>,
    pub viewing_image: Option<ViewableImage>,
    pub current_image_protocol: Option<ratatui_image::protocol::StatefulProtocol>,
    pub loading_image: bool,
    pub image_error: Option<String>,
    pub viewable_images: Vec<ViewableImage>,
    pub selected_image_index: usize,
}

/// Some prepared protocol is stored under the key `url`.
pub open spec fn protocols_contain(
    entries: Seq<(String, ratatui_image::protocol::StatefulProtocol)>,
    url: Seq<char>,
) -> bool {
    exists|i: int| 0 <= i < entries.len() && (#[trigger] entries[i]).0@ == url
}

/// The first prepared entry whose key is `url`, scanning from `from`.
pub open spec fn proto_key_idx(
    entries: Seq<(String, ratatui_image::protocol::StatefulProtocol)>,
    url: Seq<char>,
    from: int,
) -> Option<int>
    decreases entries.len() - from,
{
    if from < 0 || from >= entries.len() {
        None
    } else if entries[from].0@ == url {
        Some(from)
    } else {
        proto_key_idx(entries, url, from + 1)
    }
}

/// What `proto_key_idx` returns is the first entry with the key, if any.
proof fn lemma_proto_key_idx(
    entries: Seq<(String, ratatui_image::protocol::StatefulProtocol)>,
    url: Seq<char>,
    from: int,
)
    requires
        0 <= from,
    ensures
        match proto_key_idx(entries, url, from) {
            Some(i) => from <= i < entries.len() && entries[i].0@ == url && forall|j: int|
                from <= j < i ==> (#[trigger] entries[j]).0@ != url,
            None => forall|j: int| from <= j < entries.len() ==> (#[trigger] entries[j]).0@ != url,
        },
    decreases entries.len() - from,
{
    if from >= entries.len() {
    } else if entries[from].0@ == url {
    } else {
        lemma_proto_key_idx(entries, url, from + 1);
    }
}

/// The effect of moving the chat selection by one (wrapping around): the
/// prepared protocols and viewable images of the conversation being left
/// are dropped, and nothing else changes.
pub open spec fn spec_chat_moved(pre: App, post: App, forward: bool) -> bool {
    &&& post == (App {
        selected_index: post.selected_index,
        image_protocols: post.image_protocols,
        viewable_images: post.viewable_images,
        selected_image_index: post.selected_image_index,
        ..pre
    })
    &&& (pre.chats@.len() == 0 ==> post == pre)
    &&& (pre.chats@.len() > 0 ==> {
        &&& post.selected_index as int == (if forward {
            if pre.selected_index as int >= pre.chats@.len() - 1 {
                0int
            } else {
                pre.selected_index as int + 1
            }
        } else {
            if pre.selected_index > 0 {
                pre.selected_index as int - 1
            } else {
                pre.chats@.len() - 1
            }
        })
        &&& post.image_protocols@.len() == 0
        &&& post.viewable_images@.len() == 0
        &&& post.selected_image_index == 0
    })
}

/// The viewer stands opened on image `idx` of the pre-state's viewable
/// list: loading, with no prepared protocol and no error yet.
pub open spec fn spec_viewing_started(pre: App, post: App, idx: int) -> bool {
    &&& 0 <= idx < pre.viewable_images@.len()
    &&& (match post.viewing_image {
        Some(v) => v.name@ == pre.viewable_images@[idx].name@ && v.url@ == pre.viewable_images@[
            idx].url@,
        None => false,
    })
    &&& post.loading_image
    &&& post.current_image_protocol is None
    &&& post.image_error is None
}

/// The image the viewer moves to: the neighbour in the given direction,
/// wrapping around.
pub open spec fn viewer_target_idx(pre: App, forward: bool) -> int {
    let n = pre.viewable_images@.len() as int;
    if forward {
        if pre.selected_image_index as int >= n - 1 {
            0int
        } else {
            pre.selected_image_index as int + 1
        }
    } else {
        if pre.selected_image_index > 0 {
            pre.selected_image_index as int - 1
        } else {
            n - 1
        }
    }
}

/// The message list should replace the current one: a different length or a
/// different last message identifier; identical no-op polls are skipped.
pub open spec fn spec_should_update(cur: Seq<Message>, new: Seq<Message>) -> bool {
    if cur.len() != new.len() {
        true
    } else if cur.len() == 0 {
        false
    } else {
        cur.last().id@ != new.last().id@
    }
}

/// The first chat whose identifier is `id`, scanning from `from`.
pub open spec fn chat_idx_by_id(chats: Seq<Chat>, id: Seq<char>, from: int) -> Option<int>
    decreases chats.len() - from,
{
    if from < 0 || from >= chats.len() {
        None
    } else if chats[from].id@ == id {
        Some(from)
    } else {
        chat_idx_by_id(chats, id, from + 1)
    }
}

impl App {
    /// A fresh view state: no chats, no messages, the scroll snapped to the
    /// bottom, an image cache of fifty entries, and no picker yet (the
    /// terminal query happens outside this library).
    pub fn new() -> (r: App)
        ensures
            r.chats@.len() == 0,
            r.status@ == "Loading..."@,
            r.selected_index == 0,
            r.current_user_name is None,
            r.messages@.len() == 0,
            !r.loading_messages,
            !r.input_mode,
            r.input_buffer@.len() == 0,
            r.scroll_offset == 0,
            r.max_scroll == 0,
            r.snap_to_bottom,
            r.active_pane == ActivePane::ChatList,
            r.focused_pane == FocusedPane::ChatList,
            r.image_picker is None,
            r.image_cache@.len() == 0,
            r.image_cache.wf(),
            r.image_cache.spec_capacity() == 50,
            r.image_protocols@.len() == 0,
            r.viewing_image is None,
            r.current_image_protocol is None,
            !r.loading_image,
            r.image_error is None,
            r.viewable_images@.len() == 0,
            r.selected_image_index == 0,
    {
        App {
            chats: Vec::new(),
            status: "Loading...".to_owned(),
            selected_index: 0,
            current_user_name: None,
            messages: Vec::new(),
            loading_messages: false,
            input_mode: false,
            input_buffer: String::new(),
            scroll_offset: 0,
            max_scroll: 0,
            snap_to_bottom: true,
            active_pane: ActivePane::ChatList,
            focused_pane: FocusedPane::ChatList,
            chat_list_area: PaneRect::zero(),
            messages_area: PaneRect::zero(),
            image_picker: None,
            image_cache: ImageCache::new(50),
            image_protocols: Vec::new(),
            viewing_image: None,
            current_image_protocol: None,
            loading_image: false,
            image_error: None,
            viewable_images: Vec::new(),
            selected_image_index: 0,
        }
    }

    /// Attach the picker built from the terminal query.
    pub fn set_picker(&mut self, picker: ImagePicker)
        ensures
            *final(self) == (App { image_picker: final(self).image_picker, ..*old(self) }),
            final(self).image_picker is Some,
    {
        self.image_picker = Some(picker);
    }

    /// Replace the chat list and report how many chats were loaded.
    pub fn set_chats(&mut self, chats: Vec<Chat>)
        ensures
            *final(self) == (App {
                chats: chats,
                status: final(self).status,
                ..*old(self)
            }),
            final(self).status@ == "Loaded "@ + spec_decimal(chats@.len()) + " chats"@,
    {
        let n = chats.len();
        self.chats = chats;
        let count = decimal_chars(n as u64);
        let pre = crate::textops::str_chars("Loaded ");
        let post = crate::textops::str_chars(" chats");
        let mut text: Vec<char> = Vec::new();
        extend_range(&mut text, &pre, 0, pre.len());
        extend_range(&mut text, &count, 0, count.len());
        extend_range(&mut text, &post, 0, post.len());
        proof {
            assert(pre@.subrange(0, pre@.len() as int) =~= pre@);
            assert(count@.subrange(0, count@.len() as int) =~= count@);
            assert(post@.subrange(0, post@.len() as int) =~= post@);
            assert(text@ =~= "Loaded "@ + spec_decimal(n as nat) + " chats"@);
        }
        self.status = crate::api::chars_to_string(&text);
    }

    /// Record the local user's display name.
    pub fn set_current_user(&mut self, name: String)
        ensures
            *final(self) == (App {
                current_user_name: Some(name),
                ..*old(self)
            }),
    {
        self.current_user_name = Some(name);
    }

    /// Replace the message list, end the loading state, and refresh the
    /// viewable-image list.
    pub fn set_messages(&mut self, messages: Vec<Message>)
        ensures
            *final(self) == (App {
                messages: messages,
                loading_messages: false,
                viewable_images: final(self).viewable_images,
                selected_image_index: 0,
                ..*old(self)
            }),
            viewables_match(final(self).viewable_images@, spec_viewables(messages@)),
    {
        let vs = collect_viewables(&messages);
        self.messages = messages;
        self.loading_messages = false;
        self.viewable_images = vs;
        self.selected_image_index = 0;
    }

    /// Set the message-loading flag.
    pub fn set_loading_messages(&mut self, loading: bool)
        ensures
            *final(self) == (App { loading_messages: loading, ..*old(self) }),
    {
        self.loading_messages = loading;
    }

    /// The currently selected chat, when the index is in range.
    pub fn get_selected_chat(&self) -> (r: Option<&Chat>)
        ensures
            match r {
                Some(c) => self.selected_index < self.chats@.len() && *c == self.chats@[
                    self.selected_index as int],
                None => self.selected_index >= self.chats@.len(),
            },
    {
        if self.selected_index < self.chats.len() {
            Some(&self.chats[self.selected_index])
        } else {
            None
        }
    }

    /// Select the next chat, wrapping around, and drop the prepared images
    /// of the conversation being left.
    pub fn next_chat(&mut self)
        ensures
            spec_chat_moved(*old(self), *final(self), true),
    {
        if self.chats.len() > 0 {
            self.selected_index = if self.selected_index >= self.chats.len() - 1 {
                0
            } else {
                self.selected_index + 1
            };
            self.image_protocols.clear();
            self.viewable_images.clear();
            self.selected_image_index = 0;
        }
    }

    /// Select the previous chat, wrapping around, and drop the prepared
    /// images of the conversation being left.
    pub fn previous_chat(&mut self)
        ensures
            spec_chat_moved(*old(self), *final(self), false),
    {
        if self.chats.len() > 0 {
            if self.selected_index > 0 {
                self.selected_index = self.selected_index - 1;
            } else {
                self.selected_index = self.chats.len() - 1;
            }
            self.image_protocols.clear();
            self.viewable_images.clear();
            self.selected_image_index = 0;
        }
    }

    /// Whether the terminal supports a real graphics protocol.
    pub fn supports_graphics(&self) -> (r: bool)
        ensures
            r == (match self.image_picker {
                Some(p) => p.spec_kind() == crate::image_display::ProtocolKind::Kitty
                    || p.spec_kind() == crate::image_display::ProtocolKind::Sixel || p.spec_kind()
                    == crate::image_display::ProtocolKind::Iterm2,
                None => false,
            }),
    {
        match &self.image_picker {
            Some(p) => p.supports_graphics(),
            None => false,
        }
    }

    /// Prepare an image for rendering: the fresh protocol is appended under
    /// the image's URL, an earlier entry under the same URL is removed, and
    /// every other prepared entry is retained; without a picker nothing
    /// happens.
    pub fn prepare_image(&mut self, url: &str, image: image::DynamicImage)
        ensures
            *final(self) == (App {
                image_protocols: final(self).image_protocols,
                ..*old(self)
            }),
            old(self).image_picker is None ==> final(self).image_protocols
                == old(self).image_protocols,
            old(self).image_picker is Some ==> ({
                let entries = final(self).image_protocols@;
                &&& entries.len() > 0
                &&& entries.last().0@ == url@
                &&& protocols_contain(entries, url@)
                &&& entries == (match proto_key_idx(old(self).image_protocols@, url@, 0) {
                    Some(i) => old(self).image_protocols@.remove(i).push(entries.last()),
                    None => old(self).image_protocols@.push(entries.last()),
                })
            }),
    {
        match &self.image_picker {
            Some(p) => {
                let protocol = p.new_resize_protocol(image);
                let ghost orig = self.image_protocols@;
                proof {
                    lemma_proto_key_idx(orig, url@, 0);
                }
                let mut i: usize = 0;
                let mut found: Option<usize> = None;
                let n = self.image_protocols.len();
                while i < n
                    invariant_except_break
                        orig == self.image_protocols@,
                        n == self.image_protocols@.len(),
                        i <= n,
                        found is None,
                        forall|j: int| 0 <= j < i ==> (#[trigger] orig[j]).0@ != url@,
                    ensures
                        orig == self.image_protocols@,
                        n == self.image_protocols@.len(),
                        match found {
                            Some(f) => f < n && orig[f as int].0@ == url@ && forall|j: int|
                                0 <= j < f ==> (#[trigger] orig[j]).0@ != url@,
                            None => forall|j: int|
                                0 <= j < n ==> (#[trigger] orig[j]).0@ != url@,
                        },
                    decreases n - i,
                {
                    if str_eq(self.image_protocols[i].0.as_str(), url) {
                        found = Some(i);
                        break;
                    }
                    i = i + 1;
                }
                proof {
                    lemma_proto_key_idx(orig, url@, 0);
                    match found {
                        Some(f) => {
                            match proto_key_idx(orig, url@, 0) {
                                Some(k) => {
                                    if k < f {
                                        assert(orig[k].0@ != url@);
                                    }
                                    if k > f {
                                        assert(orig[f as int].0@ != url@);
                                    }
                                    assert(k == f);
                                },
                                None => {
                                    assert(orig[f as int].0@ != url@);
                                },
                            }
                        },
                        None => {},
                    }
                }
                match found {
                    Some(f) => {
                        let _old_entry = self.image_protocols.remove(f);
                    },
                    None => {},
                }
                let key: String = url.to_owned();
                self.image_protocols.push((key, protocol));
                proof {
                    let entries = self.image_protocols@;
                    assert(entries[entries.len() - 1].0@ == url@);
                    assert(protocols_contain(entries, url@));
                }
            },
            None => {},
        }
    }

    /// Whether a prepared protocol is stored for this URL.
    pub fn has_prepared_image(&self, url: &str) -> (r: bool)
        ensures
            r == protocols_contain(self.image_protocols@, url@),
    {
        let mut i: usize = 0;
        while i < self.image_protocols.len()
            invariant
                i <= self.image_protocols@.len(),
                forall|j: int| 0 <= j < i ==> (#[trigger] self.image_protocols@[j]).0@ != url@,
            decreases self.image_protocols@.len() - i,
        {
            if str_eq(self.image_protocols[i].0.as_str(), url) {
                proof {
                    assert(protocols_contain(self.image_protocols@, url@));
                }
                return true;
            }
            i = i + 1;
        }
        false
    }

    /// Whether the image viewer is open.
    pub fn is_viewing_image(&self) -> (r: bool)
        ensures
            r == (self.viewing_image is Some),
    {
        match &self.viewing_image {
            Some(_) => true,
            None => false,
        }
    }

    /// Open the viewer on an image: the loading flag is set, any previous
    /// protocol and error are cleared, and the status line announces it.
    pub fn start_viewing_image(&mut self, image: ViewableImage)
        ensures
            *final(self) == (App {
                status: final(self).status,
                viewing_image: Some(image),
                current_image_protocol: None,
                loading_image: true,
                image_error: None,
                ..*old(self)
            }),
            final(self).status@ == "Loading image: "@ + image.name@ + "..."@,
    {
        let pre = crate::textops::str_chars("Loading image: ");
        let nm = crate::textops::str_chars(image.name.as_str());
        let post = crate::textops::str_chars("...");
        let mut text: Vec<char> = Vec::new();
        extend_range(&mut text, &pre, 0, pre.len());
        extend_range(&mut text, &nm, 0, nm.len());
        extend_range(&mut text, &post, 0, post.len());
        proof {
            assert(pre@.subrange(0, pre@.len() as int) =~= pre@);
            assert(nm@.subrange(0, nm@.len() as int) =~= nm@);
            assert(post@.subrange(0, post@.len() as int) =~= post@);
            assert(text@ =~= "Loading image: "@ + image.name@ + "..."@);
        }
        self.status = crate::api::chars_to_string(&text);
        self.viewing_image = Some(image);
        self.loading_image = true;
        self.current_image_protocol = None;
        self.image_error = None;
    }

    /// Show a prepared protocol in the viewer: loading ends and any error is
    /// cleared.
    pub fn set_image_protocol(&mut self, protocol: ratatui_image::protocol::StatefulProtocol)
        ensures
            *final(self) == (App {
                current_image_protocol: Some(protocol),
                loading_image: false,
                image_error: None,
                ..*old(self)
            }),
    {
        self.current_image_protocol = Some(protocol);
        self.loading_image = false;
        self.image_error = None;
    }

    /// Record an image-loading error; it persists until the viewer closes or
    /// another image is requested.
    pub fn set_image_error(&mut self, error: String)
        ensures
            *final(self) == (App {
                loading_image: false,
                image_error: Some(error),
                ..*old(self)
            }),
    {
        self.loading_image = false;
        self.image_error = Some(error);
    }

    /// Close the image viewer.
    pub fn stop_viewing_image(&mut self)
        ensures
            *final(self) == (App {
                viewing_image: None,
                current_image_protocol: None,
                loading_image: false,
                image_error: None,
                ..*old(self)
            }),
    {
        self.viewing_image = None;
        self.current_image_protocol = None;
        self.loading_image = false;
        self.image_error = None;
    }

    /// The currently selected viewable image, if any.
    pub fn get_current_viewable_image(&self) -> (r: Option<&ViewableImage>)
        ensures
            match r {
                Some(v) => self.viewable_images@.len() > 0 && self.selected_image_index
                    < self.viewable_images@.len() && *v == self.viewable_images@[
                    self.selected_image_index as int],
                None => self.viewable_images@.len() == 0 || self.selected_image_index
                    >= self.viewable_images@.len(),
            },
    {
        if self.viewable_images.len() == 0 {
            None
        } else if self.selected_image_index < self.viewable_images.len() {
            Some(&self.viewable_images[self.selected_image_index])
        } else {
            None
        }
    }

    /// Select the next viewable image, wrapping around.
    pub fn next_image(&mut self)
        ensures
            *final(self) == (App {
                selected_image_index: final(self).selected_image_index,
                ..*old(self)
            }),
            old(self).viewable_images@.len() == 0 ==> *final(self) == *old(self),
            old(self).viewable_images@.len() > 0 ==> final(self).selected_image_index as int == (
            if old(self).selected_image_index as int >= old(self).viewable_images@.len() - 1 {
                0int
            } else {
                old(self).selected_image_index as int + 1
            }),
    {
        if self.viewable_images.len() > 0 {
            self.selected_image_index = if self.selected_image_index >= self.viewable_images.len()
                - 1 {
                0
            } else {
                self.selected_image_index + 1
            };
        }
    }

    /// Select the previous viewable image, wrapping around.
    pub fn previous_image(&mut self)
        ensures
            *final(self) == (App {
                selected_image_index: final(self).selected_image_index,
                ..*old(self)
            }),
            old(self).viewable_images@.len() == 0 ==> *final(self) == *old(self),
            old(self).viewable_images@.len() > 0 ==> final(self).selected_image_index as int == (
            if old(self).selected_image_index > 0 {
                old(self).selected_image_index - 1
            } else {
                old(self).viewable_images@.len() - 1
            }),
    {
        if self.viewable_images.len() > 0 {
            if self.selected_image_index > 0 {
                self.selected_image_index = self.selected_image_index - 1;
            } else {
                self.selected_image_index = self.viewable_images.len() - 1;
            }
        }
    }

    /// Overwrite the visible status line.
    pub fn set_status(&mut self, text: String)
        ensures
            *final(self) == (App { status: text, ..*old(self) }),
    {
        self.status = text;
    }
}


impl App {
    /// Merge a message snapshot tagged with the chat index it was fetched
    /// for. A snapshot for a chat that is no longer selected is discarded
    /// and the state is left exactly as it was; a snapshot equal in length
    /// and last message identifier to the current list skips the re-render
    /// and the scroll snap.
    pub fn apply_message_snapshot(&mut self, chat_index: usize, messages: Vec<Message>) -> (applied:
        bool)
        ensures
            chat_index != old(self).selected_index ==> (*final(self) == *old(self) && !applied),
            chat_index == old(self).selected_index && !spec_should_update(
                old(self).messages@,
                messages@,
            ) ==> (*final(self) == *old(self) && !applied),
            chat_index == old(self).selected_index && spec_should_update(
                old(self).messages@,
                messages@,
            ) ==> ({
                &&& applied
                &&& *final(self) == (App {
                    messages: messages,
                    loading_messages: false,
                    viewable_images: final(self).viewable_images,
                    selected_image_index: 0,
                    snap_to_bottom: true,
                    ..*old(self)
                })
                &&& viewables_match(final(self).viewable_images@, spec_viewables(messages@))
            }),
    {
        if chat_index != self.selected_index {
            return false;
        }
        let should_update: bool = if self.messages.len() != messages.len() {
            true
        } else if self.messages.len() == 0 {
            false
        } else {
            let cur_last = &self.messages[self.messages.len() - 1];
            let new_last = &messages[messages.len() - 1];
            proof {
                assert(self.messages@.last() == self.messages@[self.messages@.len() - 1]);
                assert(messages@.last() == messages@[messages@.len() - 1]);
            }
            !str_eq(cur_last.id.as_str(), new_last.id.as_str())
        };
        if should_update {
            self.set_messages(messages);
            self.snap_to_bottom = true;
            true
        } else {
            false
        }
    }

    /// Merge a chat-list snapshot: the list is replaced wholesale, the
    /// selection is re-anchored by chat identifier, and when the previously
    /// selected chat is still present its messages must be fetched again;
    /// when it is gone the selection index is clamped to the new bounds.
    /// Returns the chat to refetch, if any.
    pub fn apply_chat_snapshot(&mut self, chats: Vec<Chat>) -> (refetch: Option<(String, usize)>)
        ensures
            final(self).status@ == "Loaded "@ + spec_decimal(chats@.len()) + " chats"@,
            final(self).chats == chats,
            old(self).selected_index >= old(self).chats@.len() ==> ({
                &&& refetch is None
                &&& final(self).selected_index == old(self).selected_index
            }),
            old(self).selected_index < old(self).chats@.len() ==> ({
                let id = old(self).chats@[old(self).selected_index as int].id@;
                match chat_idx_by_id(chats@, id, 0) {
                    Some(i) => {
                        &&& final(self).selected_index as int == i
                        &&& (match refetch {
                            Some(r) => r.0@ == id && r.1 as int == i,
                            None => false,
                        })
                    },
                    None => {
                        &&& refetch is None
                        &&& final(self).selected_index as int == (
                        if old(self).selected_index < chats@.len() {
                            old(self).selected_index as int
                        } else if chats@.len() == 0 {
                            0int
                        } else {
                            chats@.len() - 1
                        })
                    },
                }
            }),
    {
        let had_selection = self.selected_index < self.chats.len();
        let current_id: Option<String> = if had_selection {
            Some(self.chats[self.selected_index].id.clone())
        } else {
            None
        };
        self.set_chats(chats);
        match current_id {
            None => None,
            Some(id) => {
                let ghost idv = id@;
                let mut i: usize = 0;
                let n = self.chats.len();
                let mut found: Option<usize> = None;
                while i < n
                    invariant_except_break
                        n == self.chats@.len(),
                        i <= n,
                        found is None,
                        forall|j: int| 0 <= j < i ==> (#[trigger] self.chats@[j]).id@ != idv,
                        idv == id@,
                    ensures
                        n == self.chats@.len(),
                        idv == id@,
                        match found {
                            Some(f) => f < n && self.chats@[f as int].id@ == idv && forall|j: int|
                                0 <= j < f ==> (#[trigger] self.chats@[j]).id@ != idv,
                            None => forall|j: int|
                                0 <= j < n ==> (#[trigger] self.chats@[j]).id@ != idv,
                        },
                    decreases n - i,
                {
                    if str_eq(self.chats[i].id.as_str(), id.as_str()) {
                        found = Some(i);
                        break;
                    }
                    i = i + 1;
                }
                proof {
                    lemma_chat_idx_by_id(self.chats@, idv, 0);
                }
                match found {
                    Some(f) => {
                        proof {
                            match chat_idx_by_id(self.chats@, idv, 0) {
                                Some(k) => {
                                    if k < f {
                                        assert(self.chats@[k].id@ != idv);
                                    }
                                    if k > f {
                                        assert(self.chats@[f as int].id@ != idv);
                                    }
                                },
                                None => {
                                    assert(self.chats@[f as int].id@ != idv);
                                },
                            }
                        }
                        self.selected_index = f;
                        Some((id, f))
                    },
                    None => {
                        if self.selected_index >= self.chats.len() {
                            if self.chats.len() == 0 {
                                self.selected_index = 0;
                            } else {
                                self.selected_index = self.chats.len() - 1;
                            }
                        }
                        None
                    },
                }
            },
        }
    }

    /// Merge downloaded image bytes: only when the viewer still shows
    /// exactly this URL are they decoded and shown; bytes that decode as no
    /// known raster format put the decode failure into the viewer's error
    /// slot; a stale result leaves the state exactly as it was. Returns
    /// whether a prepared image was set.
    pub fn accept_image_bytes(&mut self, url: &str, bytes: &[u8]) -> (applied: bool)
        ensures
            (match old(self).viewing_image {
                Some(v) => v.url@ != url@,
                None => true,
            }) ==> (*final(self) == *old(self) && !applied),
            (match old(self).viewing_image {
                Some(v) => v.url@ == url@,
                None => false,
            }) ==> ({
                if crate::image_display::image_decode_ok(bytes@) {
                    if old(self).image_picker is Some {
                        applied && *final(self) == (App {
                            current_image_protocol: final(self).current_image_protocol,
                            loading_image: false,
                            image_error: None,
                            ..*old(self)
                        }) && final(self).current_image_protocol is Some
                    } else {
                        !applied && *final(self) == *old(self)
                    }
                } else {
                    &&& !applied
                    &&& *final(self) == (App {
                        loading_image: false,
                        image_error: final(self).image_error,
                        ..*old(self)
                    })
                    &&& (match final(self).image_error {
                        Some(e) => e@ == "Failed to decode image"@,
                        None => false,
                    })
                }
            }),
    {
        let matches_current = match &self.viewing_image {
            Some(v) => str_eq(v.url.as_str(), url),
            None => false,
        };
        if !matches_current {
            return false;
        }
        match crate::image_display::load_image_from_bytes(bytes) {
            Ok(img) => {
                match &self.image_picker {
                    Some(p) => {
                        let protocol = p.new_resize_protocol(img);
                        self.set_image_protocol(protocol);
                        true
                    },
                    None => false,
                }
            },
            Err(e) => {
                self.set_image_error(e);
                false
            },
        }
    }

    /// Merge a failed image download: the failure text lands in the
    /// viewer's error slot only when the viewer still shows exactly this
    /// URL; otherwise the state is left exactly as it was.
    pub fn accept_image_failure(&mut self, url: &str, error: String) -> (applied: bool)
        ensures
            (match old(self).viewing_image {
                Some(v) => v.url@ != url@,
                None => true,
            }) ==> (*final(self) == *old(self) && !applied),
            (match old(self).viewing_image {
                Some(v) => v.url@ == url@,
                None => false,
            }) ==> (applied && *final(self) == (App {
                loading_image: false,
                image_error: Some(error),
                ..*old(self)
            })),
    {
        let matches_current = match &self.viewing_image {
            Some(v) => str_eq(v.url.as_str(), url),
            None => false,
        };
        if !matches_current {
            return false;
        }
        self.set_image_error(error);
        true
    }

    /// Scroll the message pane up by some lines: snapping is released and
    /// the offset falls, stopping at zero.
    pub fn scroll_up(&mut self, amount: u16)
        ensures
            *final(self) == (App {
                snap_to_bottom: false,
                scroll_offset: final(self).scroll_offset,
                ..*old(self)
            }),
            final(self).scroll_offset as int == (if old(self).scroll_offset >= amount {
                old(self).scroll_offset - amount
            } else {
                0int
            }),
    {
        self.snap_to_bottom = false;
        self.scroll_offset = if self.scroll_offset >= amount {
            self.scroll_offset - amount
        } else {
            0
        };
    }

    /// Scroll the message pane down by some lines: the offset rises
    /// (saturating), and reaching or passing the maximum re-enables
    /// snapping.
    pub fn scroll_down(&mut self, amount: u16)
        ensures
            *final(self) == (App {
                scroll_offset: final(self).scroll_offset,
                snap_to_bottom: final(self).snap_to_bottom,
                ..*old(self)
            }),
            final(self).scroll_offset as int == (
            if old(self).scroll_offset as int + amount as int <= u16::MAX as int {
                old(self).scroll_offset as int + amount as int
            } else {
                u16::MAX as int
            }),
            final(self).snap_to_bottom == (final(self).scroll_offset >= old(self).max_scroll
                || old(self).snap_to_bottom),
    {
        let sum: u32 = self.scroll_offset as u32 + amount as u32;
        self.scroll_offset = if sum <= u16::MAX as u32 {
            self.scroll_offset + amount
        } else {
            u16::MAX as u16
        };
        if self.scroll_offset >= self.max_scroll {
            self.snap_to_bottom = true;
        }
    }

    /// Enter compose mode with an empty buffer.
    pub fn enter_compose(&mut self)
        ensures
            *final(self) == (App {
                input_mode: true,
                input_buffer: final(self).input_buffer,
                ..*old(self)
            }),
            final(self).input_buffer@.len() == 0,
    {
        self.input_mode = true;
        self.input_buffer = String::new();
    }

    /// Leave compose mode, dropping the buffer.
    pub fn cancel_compose(&mut self)
        ensures
            *final(self) == (App {
                input_mode: false,
                input_buffer: final(self).input_buffer,
                ..*old(self)
            }),
            final(self).input_buffer@.len() == 0,
    {
        self.input_mode = false;
        self.input_buffer = String::new();
    }

    /// Append one character to the compose buffer.
    pub fn push_input_char(&mut self, c: char)
        ensures
            *final(self) == (App { input_buffer: final(self).input_buffer, ..*old(self) }),
            final(self).input_buffer@ == old(self).input_buffer@.push(c),
    {
        let mut chars = crate::textops::str_chars(self.input_buffer.as_str());
        chars.push(c);
        self.input_buffer = crate::api::chars_to_string(&chars);
    }

    /// Remove the last character of the compose buffer, if any.
    pub fn pop_input_char(&mut self)
        ensures
            *final(self) == (App { input_buffer: final(self).input_buffer, ..*old(self) }),
            final(self).input_buffer@ == (if old(self).input_buffer@.len() > 0 {
                old(self).input_buffer@.drop_last()
            } else {
                old(self).input_buffer@
            }),
    {
        let mut chars = crate::textops::str_chars(self.input_buffer.as_str());
        if chars.len() > 0 {
            let _c = chars.pop();
        }
        proof {
            if old(self).input_buffer@.len() > 0 {
                assert(chars@ =~= old(self).input_buffer@.drop_last());
            }
        }
        self.input_buffer = crate::api::chars_to_string(&chars);
    }
}

/// The first chat with this identifier is what the scan finds.
proof fn lemma_chat_idx_by_id(chats: Seq<Chat>, id: Seq<char>, from: int)
    requires
        0 <= from,
    ensures
        match chat_idx_by_id(chats, id, from) {
            Some(i) => from <= i < chats.len() && chats[i].id@ == id && forall|j: int|
                from <= j < i ==> (#[trigger] chats[j]).id@ != id,
            None => forall|j: int| from <= j < chats.len() ==> (#[trigger] chats[j]).id@ != id,
        },
    decreases chats.len() - from,
{
    if from >= chats.len() {
    } else if chats[from].id@ == id {
    } else {
        lemma_chat_idx_by_id(chats, id, from + 1);
    }
}


impl App {
    /// Take a pending send request out of the compose state: a nonempty
    /// buffer leaves compose mode; with a selected chat the text is handed
    /// out for sending and the scroll snaps to the bottom.
    pub fn take_send_request(&mut self) -> (r: Option<(String, usize, String)>)
        ensures
            old(self).input_buffer@.len() == 0 ==> (*final(self) == *old(self) && r is None),
            old(self).input_buffer@.len() > 0 && old(self).selected_index >= old(self).chats@.len() ==> ({
                &&& r is None
                &&& *final(self) == (App {
                    input_mode: false,
                    input_buffer: final(self).input_buffer,
                    ..*old(self)
                })
                &&& final(self).input_buffer@.len() == 0
            }),
            old(self).input_buffer@.len() > 0 && old(self).selected_index < old(self).chats@.len() ==> ({
                &&& (match r {
                    Some(req) => req.0@ == old(self).chats@[old(self).selected_index as int].id@
                        && req.1 == old(self).selected_index && req.2@ == old(self).input_buffer@,
                    None => false,
                })
                &&& *final(self) == (App {
                    input_mode: false,
                    input_buffer: final(self).input_buffer,
                    snap_to_bottom: true,
                    ..*old(self)
                })
                &&& final(self).input_buffer@.len() == 0
            }),
    {
        if self.input_buffer.as_str().unicode_len() == 0 {
            proof {
                assert(self.input_buffer@.len() == 0);
            }
            return None;
        }
        let message = self.input_buffer.clone();
        self.input_buffer = String::new();
        self.input_mode = false;
        if self.selected_index < self.chats.len() {
            let chat_id = self.chats[self.selected_index].id.clone();
            let index = self.selected_index;
            self.snap_to_bottom = true;
            Some((chat_id, index, message))
        } else {
            None
        }
    }

    /// Move the viewer to the adjacent image and start loading it; the URL
    /// to download is handed out.
    pub fn viewer_navigate(&mut self, forward: bool) -> (r: Option<String>)
        ensures
            old(self).viewable_images@.len() == 0 ==> (*final(self) == *old(self) && r is None),
            old(self).viewable_images@.len() > 0 && old(self).selected_image_index < old(self).viewable_images@.len() ==> ({
                let n = old(self).viewable_images@.len() as int;
                let idx = (if forward {
                    if old(self).selected_image_index as int >= n - 1 {
                        0int
                    } else {
                        old(self).selected_image_index as int + 1
                    }
                } else {
                    if old(self).selected_image_index > 0 {
                        old(self).selected_image_index as int - 1
                    } else {
                        n - 1
                    }
                });
                &&& final(self).selected_image_index as int == idx
                &&& (match (r, final(self).viewing_image) {
                    (Some(u), Some(v)) => u@ == old(self).viewable_images@[idx].url@ && v.name@
                        == old(self).viewable_images@[idx].name@ && v.url@ == old(self).viewable_images@[idx].url@,
                    _ => false,
                })
                &&& final(self).loading_image
                &&& final(self).current_image_protocol is None
                &&& final(self).image_error is None
            }),
    {
        if forward {
            self.next_image();
        } else {
            self.previous_image();
        }
        match self.get_current_viewable_image() {
            Some(img) => {
                let name = img.name.clone();
                let url = img.url.clone();
                let view = ViewableImage { name, url: url.clone() };
                self.start_viewing_image(view);
                Some(url)
            },
            None => None,
        }
    }

    /// Open the viewer on the currently selected viewable image, if any,
    /// and hand out its URL for downloading.
    pub fn view_current_image(&mut self) -> (r: Option<String>)
        ensures
            (old(self).viewable_images@.len() == 0 || old(self).selected_image_index >= old(self).viewable_images@.len()) ==> (*final(self) == *old(self) && r is None),
            old(self).viewable_images@.len() > 0 && old(self).selected_image_index < old(self).viewable_images@.len() ==> ({
                let idx = old(self).selected_image_index as int;
                &&& (match (r, final(self).viewing_image) {
                    (Some(u), Some(v)) => u@ == old(self).viewable_images@[idx].url@ && v.name@
                        == old(self).viewable_images@[idx].name@ && v.url@ == old(self).viewable_images@[idx].url@,
                    _ => false,
                })
                &&& final(self).loading_image
                &&& final(self).current_image_protocol is None
                &&& final(self).image_error is None
            }),
    {
        match self.get_current_viewable_image() {
            Some(img) => {
                let name = img.name.clone();
                let url = img.url.clone();
                let view = ViewableImage { name, url: url.clone() };
                self.start_viewing_image(view);
                Some(url)
            },
            None => None,
        }
    }

    /// Handle one key while the image viewer is open: escape or `q` closes
    /// it, the arrow keys (or `h` and `l`) move between images.
    pub fn handle_viewer_key(&mut self, key: KeyInput) -> (r: UiAction)
        ensures
            (key == KeyInput::Esc || key == KeyInput::Char('q')) ==> (r is DoNothing && *final(self) == (App {
                viewing_image: None,
                current_image_protocol: None,
                loading_image: false,
                image_error: None,
                ..*old(self)
            })),
            (key == KeyInput::Left || key == KeyInput::Char('h')) ==> ({
                if old(self).viewable_images@.len() == 0 {
                    *final(self) == *old(self) && r is DoNothing
                } else if old(self).selected_image_index < old(self).viewable_images@.len() {
                    let idx = viewer_target_idx(*old(self), false);
                    &&& final(self).selected_image_index as int == idx
                    &&& (match r {
                        UiAction::DownloadImage { url } => url@ == old(self).viewable_images@[
                            idx].url@,
                        _ => false,
                    })
                    &&& spec_viewing_started(*old(self), *final(self), idx)
                } else {
                    true
                }
            }),
            (key == KeyInput::Right || key == KeyInput::Char('l')) ==> ({
                if old(self).viewable_images@.len() == 0 {
                    *final(self) == *old(self) && r is DoNothing
                } else if old(self).selected_image_index < old(self).viewable_images@.len() {
                    let idx = viewer_target_idx(*old(self), true);
                    &&& final(self).selected_image_index as int == idx
                    &&& (match r {
                        UiAction::DownloadImage { url } => url@ == old(self).viewable_images@[
                            idx].url@,
                        _ => false,
                    })
                    &&& spec_viewing_started(*old(self), *final(self), idx)
                } else {
                    true
                }
            }),
    {
        match key {
            KeyInput::Esc => {
                self.stop_viewing_image();
                UiAction::DoNothing
            },
            KeyInput::Char(c) => {
                if c == 'q' {
                    self.stop_viewing_image();
                    UiAction::DoNothing
                } else if c == 'h' {
                    match self.viewer_navigate(false) {
                        Some(url) => UiAction::DownloadImage { url },
                        None => UiAction::DoNothing,
                    }
                } else if c == 'l' {
                    match self.viewer_navigate(true) {
                        Some(url) => UiAction::DownloadImage { url },
                        None => UiAction::DoNothing,
                    }
                } else {
                    UiAction::DoNothing
                }
            },
            KeyInput::Left => {
                match self.viewer_navigate(false) {
                    Some(url) => UiAction::DownloadImage { url },
                    None => UiAction::DoNothing,
                }
            },
            KeyInput::Right => {
                match self.viewer_navigate(true) {
                    Some(url) => UiAction::DownloadImage { url },
                    None => UiAction::DoNothing,
                }
            },
            _ => UiAction::DoNothing,
        }
    }

    /// Handle one key outside the image viewer: navigation, compose mode,
    /// sending, image viewing, and scrolling, exactly as the pane state
    /// dictates.
    pub fn handle_key(&mut self, key: KeyInput) -> (r: UiAction)
        ensures
            !old(self).input_mode && key == KeyInput::Char('q') ==> (r is Quit && *final(self)
                == *old(self)),
            old(self).input_mode && key == KeyInput::Esc ==> (!final(self).input_mode && final(self).input_buffer@.len() == 0),
            old(self).input_mode && key == KeyInput::Backspace ==> final(self).input_buffer@ == (
            if old(self).input_buffer@.len() > 0 {
                old(self).input_buffer@.drop_last()
            } else {
                old(self).input_buffer@
            }),
            (match key {
                KeyInput::Char(c) => old(self).input_mode && c != '\n',
                _ => false,
            }) ==> final(self).input_buffer@ == old(self).input_buffer@.push(key->Char_0),
            !old(self).input_mode && key == KeyInput::Char('i') ==> (final(self).input_mode
                && final(self).input_buffer@.len() == 0),
            key == KeyInput::PageUp ==> (!final(self).snap_to_bottom && final(self).scroll_offset as int == (if old(self).scroll_offset >= 10 {
                old(self).scroll_offset - 10
            } else {
                0int
            })),
            key == KeyInput::PageDown ==> final(self).snap_to_bottom == (final(self).scroll_offset
                >= old(self).max_scroll || old(self).snap_to_bottom),
            !old(self).input_mode && (key == KeyInput::Down || key == KeyInput::Char('j')) ==> (
            r is DoNothing && spec_chat_moved(*old(self), *final(self), true)),
            !old(self).input_mode && (key == KeyInput::Up || key == KeyInput::Char('k')) ==> (
            r is DoNothing && spec_chat_moved(*old(self), *final(self), false)),
            old(self).input_mode && (key == KeyInput::Down || key == KeyInput::Up) ==> (*final(self) == *old(self) && r is DoNothing),
            !old(self).input_mode && key == KeyInput::Char('v') ==> ({
                let idx = old(self).selected_image_index as int;
                if old(self).viewable_images@.len() > 0 && idx < old(self).viewable_images@.len() {
                    &&& (match r {
                        UiAction::DownloadImage { url } => url@ == old(self).viewable_images@[
                            idx].url@,
                        _ => false,
                    })
                    &&& spec_viewing_started(*old(self), *final(self), idx)
                } else {
                    *final(self) == *old(self) && r is DoNothing
                }
            }),
            old(self).input_mode && key == KeyInput::Enter ==> ({
                if old(self).input_buffer@.len() == 0 {
                    *final(self) == *old(self) && r is DoNothing
                } else if old(self).selected_index < old(self).chats@.len() {
                    &&& (match r {
                        UiAction::SendMessage { chat_id, chat_index, text } => chat_id@ == old(self).chats@[old(self).selected_index as int].id@ && chat_index == old(self).selected_index && text@ == old(self).input_buffer@,
                        _ => false,
                    })
                    &&& !final(self).input_mode
                    &&& final(self).input_buffer@.len() == 0
                    &&& final(self).snap_to_bottom
                } else {
                    &&& r is DoNothing
                    &&& !final(self).input_mode
                    &&& final(self).input_buffer@.len() == 0
                }
            }),
            !old(self).input_mode && key == KeyInput::Enter ==> (*final(self) == *old(self)
                && r is DoNothing),
    {
        match key {
            KeyInput::Char(c) => {
                if !self.input_mode {
                    if c == 'q' {
                        UiAction::Quit
                    } else if c == 'j' {
                        self.next_chat();
                        UiAction::DoNothing
                    } else if c == 'k' {
                        self.previous_chat();
                        UiAction::DoNothing
                    } else if c == 'v' {
                        match self.view_current_image() {
                            Some(url) => UiAction::DownloadImage { url },
                            None => UiAction::DoNothing,
                        }
                    } else if c == 'i' {
                        self.enter_compose();
                        UiAction::DoNothing
                    } else {
                        UiAction::DoNothing
                    }
                } else {
                    self.push_input_char(c);
                    UiAction::DoNothing
                }
            },
            KeyInput::Down => {
                if !self.input_mode {
                    self.next_chat();
                }
                UiAction::DoNothing
            },
            KeyInput::Up => {
                if !self.input_mode {
                    self.previous_chat();
                }
                UiAction::DoNothing
            },
            KeyInput::Esc => {
                if self.input_mode {
                    self.cancel_compose();
                }
                UiAction::DoNothing
            },
            KeyInput::Enter => {
                if self.input_mode {
                    match self.take_send_request() {
                        Some(req) => UiAction::SendMessage {
                            chat_id: req.0,
                            chat_index: req.1,
                            text: req.2,
                        },
                        None => UiAction::DoNothing,
                    }
                } else {
                    UiAction::DoNothing
                }
            },
            KeyInput::Backspace => {
                if self.input_mode {
                    self.pop_input_char();
                }
                UiAction::DoNothing
            },
            KeyInput::PageUp => {
                self.scroll_up(10);
                UiAction::DoNothing
            },
            KeyInput::PageDown => {
                self.scroll_down(10);
                UiAction::DoNothing
            },
            _ => UiAction::DoNothing,
        }
    }

    /// Handle a mouse event at a cell: clicks select panes and chats,
    /// wheel turns move the chat selection or scroll the messages.
    pub fn handle_mouse(&mut self, kind: MouseKind, x: u16, y: u16)
        ensures
            ({
                let in_chats = old(self).chat_list_area.x <= x < old(self).chat_list_area.x + old(self).chat_list_area.width && old(self).chat_list_area.y <= y < old(self).chat_list_area.y + old(self).chat_list_area.height;
                let in_msgs = old(self).messages_area.x <= x < old(self).messages_area.x + old(self).messages_area.width && old(self).messages_area.y <= y < old(self).messages_area.y + old(self).messages_area.height;
                &&& (!in_chats && !in_msgs ==> *final(self) == *old(self))
                &&& (in_chats ==> final(self).active_pane == ActivePane::ChatList)
                &&& (!in_chats && in_msgs ==> final(self).active_pane == ActivePane::Messages)
                &&& (in_chats && kind == MouseKind::LeftDown ==> ({
                    let clicked = y - (old(self).chat_list_area.y + 1);
                    if old(self).chat_list_area.y + 1 <= y && 0 <= clicked < old(self).chats@.len() {
                        final(self).selected_index == clicked
                    } else {
                        final(self).selected_index == old(self).selected_index
                    }
                }))
                &&& (!in_chats && in_msgs && kind == MouseKind::ScrollUp ==> (!final(self).snap_to_bottom && final(self).scroll_offset as int == (
                if old(self).scroll_offset >= 3 {
                    old(self).scroll_offset - 3
                } else {
                    0int
                })))
                &&& (!in_chats && in_msgs && kind == MouseKind::ScrollDown ==> final(self).snap_to_bottom == (final(self).scroll_offset >= old(self).max_scroll || old(self).snap_to_bottom))
            }),
    {
        let in_chats = self.chat_list_area.hit(x, y);
        let in_msgs = self.messages_area.hit(x, y);
        match kind {
            MouseKind::LeftDown => {
                if in_chats {
                    self.active_pane = ActivePane::ChatList;
                    if y > self.chat_list_area.y {
                        let inner_y = y - (self.chat_list_area.y + 1);
                        if (inner_y as usize) < self.chats.len() {
                            self.selected_index = inner_y as usize;
                        }
                    }
                } else if in_msgs {
                    self.active_pane = ActivePane::Messages;
                }
            },
            MouseKind::ScrollUp => {
                if in_chats {
                    self.active_pane = ActivePane::ChatList;
                    if self.selected_index > 0 {
                        self.selected_index = self.selected_index - 1;
                    }
                } else if in_msgs {
                    self.active_pane = ActivePane::Messages;
                    self.scroll_up(3);
                }
            },
            MouseKind::ScrollDown => {
                if in_chats {
                    self.active_pane = ActivePane::ChatList;
                    if self.chats.len() > 0 && self.selected_index < self.chats.len() - 1 {
                        self.selected_index = self.selected_index + 1;
                    }
                } else if in_msgs {
                    self.active_pane = ActivePane::Messages;
                    self.scroll_down(3);
                }
            },
        }
    }

    /// After the selection moved to another chat, clear the pane, snap to
    /// the bottom, and hand out the chat whose messages must be fetched.
    pub fn reload_after_selection(&mut self, previous_index: usize) -> (r: Option<(String, usize)>)
        ensures
            previous_index == old(self).selected_index ==> (*final(self) == *old(self)
                && r is None),
            previous_index != old(self).selected_index && old(self).selected_index >= old(self).chats@.len() ==> (*final(self) == *old(self) && r is None),
            previous_index != old(self).selected_index && old(self).selected_index < old(self).chats@.len() ==> ({
                &&& (match r {
                    Some(req) => req.0@ == old(self).chats@[old(self).selected_index as int].id@
                        && req.1 == old(self).selected_index,
                    None => false,
                })
                &&& final(self).loading_messages
                &&& final(self).messages@.len() == 0
                &&& final(self).viewable_images@.len() == 0
                &&& final(self).snap_to_bottom
            }),
    {
        if previous_index == self.selected_index {
            return None;
        }
        if self.selected_index < self.chats.len() {
            let chat_id = self.chats[self.selected_index].id.clone();
            let index = self.selected_index;
            self.set_loading_messages(true);
            self.set_messages(Vec::new());
            self.set_loading_messages(true);
            self.snap_to_bottom = true;
            Some((chat_id, index))
        } else {
            None
        }
    }
}

} // verus!
