//! The data model of the remote chat service: conversation summaries,
//! messages, members and attachments, together with the derived predicates
//! and the chat-list post-processing (local-user detection, member filtering
//! and display-name derivation).

use vstd::prelude::*;
use crate::textops::{starts_with, ends_with, str_chars, check_starts_with, check_ends_with,
    chars_equal, spec_words, split_words, lemma_words_wordlike, extend_range};

verus! {

/// One member of a conversation.
#[derive(Debug, Clone)]
pub struct ChatMember {
    pub id: Option<String>,
    pub display_name: Option<String>,
    pub email: Option<String>,
}

/// One conversation's summary record.
#[derive(Debug, Clone)]
pub struct Chat {
    pub id: String,
    pub topic: Option<String>,
    pub chat_type: String,
    pub last_updated: Option<String>,
    pub members: Vec<ChatMember>,
    pub cached_display_name: Option<String>,
}

/// One message of a conversation.
#[derive(Debug, Clone)]
pub struct Message {
    pub id: String,
    pub created_date_time: String,
    pub from: Option<MessageFrom>,
    pub body: Option<MessageBody>,
    pub attachments: Vec<MessageAttachment>,
}

/// The sender of a message.
#[derive(Debug, Clone)]
pub struct MessageFrom {
    pub user: Option<MessageUser>,
}

/// The user record inside a message's sender.
#[derive(Debug, Clone)]
pub struct MessageUser {
    pub display_name: Option<String>,
}

/// The rich-text body of a message.
#[derive(Debug, Clone)]
pub struct MessageBody {
    pub content: Option<String>,
    pub content_type: Option<String>,
}

/// An attachment of a message.
#[derive(Debug, Clone)]
pub struct MessageAttachment {
    pub id: Option<String>,
    pub content_type: Option<String>,
    pub content_url: Option<String>,
    pub name: Option<String>,
    pub thumbnail_url: Option<String>,
}

/// The local user's profile record.
#[derive(Debug, Clone)]
pub struct User {
    pub display_name: String,
    pub id: String,
    pub user_principal_name: Option<String>,
}

/// What `str::to_lowercase` yields for a string: its lowercase form, a
/// function of the characters alone.
pub uninterp spec fn lower_of(s: Seq<char>) -> Seq<char>;

/// Relies on `str::to_lowercase`: the result depends on the characters alone.
#[verifier::external_body]
pub fn to_lowercase(s: &str) -> (r: String)
    ensures
        r@ == lower_of(s@),
{
    s.to_lowercase()
}

/// Relies on `String::from_iter`: collecting characters into a string keeps
/// exactly those characters.
#[verifier::external_body]
pub fn chars_to_string(v: &Vec<char>) -> (r: String)
    ensures
        r@ == v@,
{
    v.iter().collect()
}

/// Whether two strings hold the same characters.
pub fn str_eq(a: &str, b: &str) -> (r: bool)
    ensures
        r == (a@ == b@),
{
    let av = str_chars(a);
    let bv = str_chars(b);
    let r = chars_equal(&av, &bv);
    proof {
        if av@ =~= bv@ {
            assert(a@ == b@);
        }
    }
    r
}

/// A lowercased file name carries one of the image extensions.
pub open spec fn has_image_extension(n: Seq<char>) -> bool {
    ends_with(n, ".png"@) || ends_with(n, ".jpg"@) || ends_with(n, ".jpeg"@) || ends_with(
        n,
        ".gif"@,
    ) || ends_with(n, ".webp"@) || ends_with(n, ".bmp"@)
}

/// The lowercased content type and file name mark an attachment as an image:
/// an image MIME type, or the service's generic file-reference type together
/// with an image file extension.
pub open spec fn is_image_content(ct_lower: Seq<char>, name_lower: Option<Seq<char>>) -> bool {
    starts_with(ct_lower, "image/"@) || (ct_lower == "reference"@ && match name_lower {
        Some(n) => has_image_extension(n),
        None => false,
    })
}

/// Decide [`is_image_content`] on already-lowercased values.
pub fn image_content_check(ct_lower: &str, name_lower: &Option<String>) -> (r: bool)
    ensures
        r == is_image_content(ct_lower@, match name_lower {
            Some(n) => Some(n@),
            None => None,
        }),
{
    let ctv = str_chars(ct_lower);
    proof {
        reveal_strlit("image/");
        reveal_strlit("reference");
        reveal_strlit(".png");
        reveal_strlit(".jpg");
        reveal_strlit(".jpeg");
        reveal_strlit(".gif");
        reveal_strlit(".webp");
        reveal_strlit(".bmp");
    }
    if check_starts_with(&ctv, &str_chars("image/")) {
        return true;
    }
    if !chars_equal(&ctv, &str_chars("reference")) {
        proof {
            assert(!(ct_lower@ == "reference"@));
        }
        return false;
    }
    match name_lower {
        Some(n) => {
            let nv = str_chars(n.as_str());
            let r = check_ends_with(&nv, &str_chars(".png")) || check_ends_with(
                &nv,
                &str_chars(".jpg"),
            ) || check_ends_with(&nv, &str_chars(".jpeg")) || check_ends_with(
                &nv,
                &str_chars(".gif"),
            ) || check_ends_with(&nv, &str_chars(".webp")) || check_ends_with(
                &nv,
                &str_chars(".bmp"),
            );
            r
        },
        None => false,
    }
}

/// An attachment is an image: its lowercased content type starts with the
/// image MIME prefix, or it is a lowercased `reference` whose lowercased
/// name carries an image extension.
pub open spec fn spec_is_image(a: MessageAttachment) -> bool {
    match a.content_type {
        Some(ct) => is_image_content(lower_of(ct@), match a.name {
            Some(n) => Some(lower_of(n@)),
            None => None,
        }),
        None => false,
    }
}

impl MessageAttachment {
    /// Whether this attachment is an image.
    pub fn is_image(&self) -> (r: bool)
        ensures
            r == spec_is_image(*self),
    {
        match &self.content_type {
            None => false,
            Some(ct) => {
                let ct_lower = to_lowercase(ct.as_str());
                let name_lower: Option<String> = match &self.name {
                    Some(n) => Some(to_lowercase(n.as_str())),
                    None => None,
                };
                image_content_check(ct_lower.as_str(), &name_lower)
            },
        }
    }

    /// The URL to fetch the image from: the thumbnail when there is one,
    /// else the full content, else nothing.
    pub fn get_image_url(&self) -> (r: Option<&str>)
        ensures
            match self.thumbnail_url {
                Some(t) => r is Some && r.unwrap()@ == t@,
                None => match self.content_url {
                    Some(c) => r is Some && r.unwrap()@ == c@,
                    None => r is None,
                },
            },
    {
        match &self.thumbnail_url {
            Some(t) => Some(t.as_str()),
            None => match &self.content_url {
                Some(c) => Some(c.as_str()),
                None => None,
            },
        }
    }
}

/// The abbreviation of a member's full name: a single word stays as it is;
/// several words become the first word and the last word's initial.
pub open spec fn spec_abbreviate(s: Seq<char>) -> Seq<char> {
    let ws = spec_words(s);
    if ws.len() == 0 {
        Seq::empty()
    } else if ws.len() == 1 {
        ws[0]
    } else {
        ws[0] + seq![' '] + seq![ws[ws.len() - 1][0]]
    }
}

/// Abbreviate a member's full name.
pub fn abbreviate_name(full_name: &str) -> (r: String)
    ensures
        r@ == spec_abbreviate(full_name@),
{
    let chars = str_chars(full_name);
    let words = split_words(&chars);
    proof {
        lemma_words_wordlike(full_name@);
    }
    if words.len() == 0 {
        let empty: Vec<char> = Vec::new();
        chars_to_string(&empty)
    } else if words.len() == 1 {
        proof {
            assert(words@.map_values(|v: Vec<char>| v@)[0] == words@[0]@);
        }
        chars_to_string(&words[0])
    } else {
        let mut out: Vec<char> = Vec::new();
        let first = &words[0];
        extend_range(&mut out, first, 0, first.len());
        out.push(' ');
        let last = &words[words.len() - 1];
        proof {
            let f = |v: Vec<char>| v@;
            assert(words@.map_values(f)[0] == words@[0]@);
            assert(words@.map_values(f)[words@.len() - 1] == words@[words@.len() - 1]@);
            assert(spec_words(full_name@)[words@.len() - 1].len() >= 1);
        }
        let c = last[0];
        out.push(c);
        proof {
            assert(first@.subrange(0, first@.len() as int) =~= first@);
            assert(out@ =~= spec_abbreviate(full_name@));
        }
        chars_to_string(&out)
    }
}


/// A conversation the client shows: a one-to-one or group chat.
pub open spec fn is_supported_chat(c: Chat) -> bool {
    c.chat_type@ == "oneOnOne"@ || c.chat_type@ == "group"@
}

/// A one-to-one conversation.
pub open spec fn is_one_on_one(c: Chat) -> bool {
    c.chat_type@ == "oneOnOne"@
}

/// The display names of a member list, in order.
pub open spec fn member_names(ms: Seq<ChatMember>) -> Seq<Seq<char>>
    decreases ms.len(),
{
    if ms.len() == 0 {
        Seq::empty()
    } else {
        member_names(ms.drop_last()) + (match ms.last().display_name {
            Some(n) => seq![n@],
            None => Seq::empty(),
        })
    }
}

/// All member display names of the one-to-one chats, in order.
pub open spec fn flat_one_on_one_names(chats: Seq<Chat>) -> Seq<Seq<char>>
    decreases chats.len(),
{
    if chats.len() == 0 {
        Seq::empty()
    } else {
        flat_one_on_one_names(chats.drop_last()) + (if is_one_on_one(chats.last()) {
            member_names(chats.last().members@)
        } else {
            Seq::empty()
        })
    }
}

/// The first position at or after `from` whose key is `n`.
pub open spec fn key_idx(t: Seq<(Seq<char>, int)>, n: Seq<char>, from: int) -> Option<int>
    decreases t.len() - from,
{
    if from < 0 || from >= t.len() {
        None
    } else if t[from].0 == n {
        Some(from)
    } else {
        key_idx(t, n, from + 1)
    }
}

/// What `key_idx` returns is the first occurrence of the key, if any.
proof fn lemma_key_idx(t: Seq<(Seq<char>, int)>, n: Seq<char>, from: int)
    requires
        0 <= from,
    ensures
        match key_idx(t, n, from) {
            Some(i) => from <= i < t.len() && t[i].0 == n && forall|j: int|
                from <= j < i ==> (#[trigger] t[j]).0 != n,
            None => forall|j: int| from <= j < t.len() ==> (#[trigger] t[j]).0 != n,
        },
    decreases t.len() - from,
{
    if from >= t.len() {
    } else if t[from].0 == n {
    } else {
        lemma_key_idx(t, n, from + 1);
    }
}

/// Count one more occurrence of the name `n` in the table: its entry is
/// raised by one (held at the machine limit), or a fresh entry is appended.
pub open spec fn table_bump_spec(t: Seq<(Seq<char>, int)>, n: Seq<char>) -> Seq<(Seq<char>, int)> {
    match key_idx(t, n, 0) {
        Some(i) => t.update(
            i,
            (
                t[i].0,
                if t[i].1 < usize::MAX {
                    t[i].1 + 1
                } else {
                    t[i].1
                },
            ),
        ),
        None => t.push((n, 1)),
    }
}

/// The occurrence-count table of a name list, keys in first-seen order.
pub open spec fn name_table(names: Seq<Seq<char>>) -> Seq<(Seq<char>, int)>
    decreases names.len(),
{
    if names.len() == 0 {
        Seq::empty()
    } else {
        table_bump_spec(name_table(names.drop_last()), names.last())
    }
}

/// The position of the first maximal count among the first `k` entries.
pub open spec fn table_argmax(t: Seq<(Seq<char>, int)>, k: int) -> int
    decreases k,
{
    if k <= 1 {
        0
    } else {
        let b = table_argmax(t, k - 1);
        if t[k - 1].1 > t[b].1 {
            k - 1
        } else {
            b
        }
    }
}

/// The number of one-to-one chats.
pub open spec fn count_one_on_one(chats: Seq<Chat>) -> int
    decreases chats.len(),
{
    if chats.len() == 0 {
        0
    } else {
        count_one_on_one(chats.drop_last()) + if is_one_on_one(chats.last()) {
            1int
        } else {
            0int
        }
    }
}

/// The heuristically detected local user: the member name that recurs most
/// often across one-to-one chats (first such name on a tie), accepted only
/// when it recurs at least twice or there is exactly one one-to-one chat.
pub open spec fn spec_detect_user(chats: Seq<Chat>) -> Option<Seq<char>> {
    let t = name_table(flat_one_on_one_names(chats));
    if t.len() == 0 {
        None
    } else {
        let b = table_argmax(t, t.len() as int);
        if t[b].1 >= 2 || count_one_on_one(chats) == 1 {
            Some(t[b].0)
        } else {
            None
        }
    }
}

/// The parallel vectors hold exactly the table `t`.
pub open spec fn table_inv(keys: Seq<String>, counts: Seq<usize>, t: Seq<(Seq<char>, int)>) -> bool {
    &&& keys.len() == t.len()
    &&& counts.len() == t.len()
    &&& forall|k: int| 0 <= k < t.len() ==> (#[trigger] keys[k])@ == t[k].0
    &&& forall|k: int| 0 <= k < t.len() ==> (#[trigger] counts[k]) as int == t[k].1
}

/// Count one more occurrence of `n` in the parallel-vector table.
fn table_bump(keys: &mut Vec<String>, counts: &mut Vec<usize>, n: &String, names: Ghost<Seq<Seq<char>>>)
    requires
        table_inv(old(keys)@, old(counts)@, name_table(names@)),
    ensures
        table_inv(final(keys)@, final(counts)@, name_table(names@.push(n@))),
{
    let ghost t = name_table(names@);
    proof {
        assert(names@.push(n@).drop_last() =~= names@);
        assert(name_table(names@.push(n@)) == table_bump_spec(t, n@));
        lemma_key_idx(t, n@, 0);
    }
    let mut f: usize = 0;
    while f < keys.len()
        invariant
            table_inv(keys@, counts@, t),
            f <= t.len(),
            forall|j: int| 0 <= j < f ==> (#[trigger] t[j]).0 != n@,
        ensures
            table_inv(keys@, counts@, t),
            f <= t.len(),
            forall|j: int| 0 <= j < f ==> (#[trigger] t[j]).0 != n@,
            f < t.len() ==> t[f as int].0 == n@,
            f == t.len() ==> forall|j: int| 0 <= j < t.len() ==> (#[trigger] t[j]).0 != n@,
        decreases keys@.len() - f,
    {
        if keys[f] == *n {
            break;
        }
        f = f + 1;
    }
    proof {
        lemma_key_idx(t, n@, 0);
    }
    if f < counts.len() {
        proof {
            match key_idx(t, n@, 0) {
                Some(i) => {
                    if i < f {
                        assert(t[i].0 != n@);
                    }
                    if i > f {
                        assert(t[f as int].0 != n@);
                    }
                    assert(i == f);
                },
                None => {
                    assert(t[f as int].0 != n@);
                },
            }
        }
        let c = counts[f];
        if c < usize::MAX {
            counts[f] = c + 1;
        }
        proof {
            assert(table_inv(keys@, counts@, table_bump_spec(t, n@)));
        }
    } else {
        proof {
            match key_idx(t, n@, 0) {
                Some(i) => {
                    assert(t[i].0 != n@);
                },
                None => {},
            }
        }
        keys.push(n.clone());
        counts.push(1);
        proof {
            assert(table_inv(keys@, counts@, table_bump_spec(t, n@)));
        }
    }
}

/// Detect the local user's display name from the chat list: the name that
/// recurs most often among one-to-one chat members, accepted only when it
/// recurs at least twice or there is exactly one one-to-one chat.
pub fn detect_current_user(chats: &Vec<Chat>) -> (r: Option<String>)
    ensures
        match (r, spec_detect_user(chats@)) {
            (Some(a), Some(b)) => a@ == b,
            (None, None) => true,
            _ => false,
        },
{
    let mut keys: Vec<String> = Vec::new();
    let mut counts: Vec<usize> = Vec::new();
    let mut one_cnt: usize = 0;
    let ghost all = chats@;
    let mut i: usize = 0;
    proof {
        assert(all.take(0) =~= Seq::<Chat>::empty());
        assert(table_inv(keys@, counts@, name_table(flat_one_on_one_names(all.take(0)))));
    }
    while i < chats.len()
        invariant
            all == chats@,
            i <= all.len(),
            one_cnt <= i,
            one_cnt as int == count_one_on_one(all.take(i as int)),
            table_inv(keys@, counts@, name_table(flat_one_on_one_names(all.take(i as int)))),
        decreases all.len() - i,
    {
        let c = &chats[i];
        proof {
            assert(all.take(i + 1).drop_last() =~= all.take(i as int));
            assert(all.take(i + 1).last() == all[i as int]);
        }
        if str_eq(c.chat_type.as_str(), "oneOnOne") {
            proof {
                reveal_strlit("oneOnOne");
                assert(is_one_on_one(all[i as int]));
            }
            one_cnt = one_cnt + 1;
            let ghost base = flat_one_on_one_names(all.take(i as int));
            let ms = &c.members;
            let mut j: usize = 0;
            proof {
                assert(ms@.take(0) =~= Seq::<ChatMember>::empty());
                assert(base + member_names(ms@.take(0)) =~= base);
            }
            while j < ms.len()
                invariant
                    all == chats@,
                    i < all.len(),
                    ms@ == all[i as int].members@,
                    base == flat_one_on_one_names(all.take(i as int)),
                    j <= ms@.len(),
                    table_inv(keys@, counts@, name_table(base + member_names(ms@.take(j as int)))),
                decreases ms@.len() - j,
            {
                proof {
                    assert(ms@.take(j + 1).drop_last() =~= ms@.take(j as int));
                    assert(ms@.take(j + 1).last() == ms@[j as int]);
                }
                match &ms[j].display_name {
                    Some(n) => {
                        proof {
                            assert(member_names(ms@.take(j + 1)) =~= member_names(
                                ms@.take(j as int),
                            ) + seq![n@]);
                            assert(base + member_names(ms@.take(j + 1)) =~= (base + member_names(
                                ms@.take(j as int),
                            )).push(n@));
                        }
                        table_bump(
                            &mut keys,
                            &mut counts,
                            n,
                            Ghost(base + member_names(ms@.take(j as int))),
                        );
                    },
                    None => {
                        proof {
                            assert(member_names(ms@.take(j + 1)) =~= member_names(
                                ms@.take(j as int),
                            ));
                            assert(base + member_names(ms@.take(j + 1)) =~= base + member_names(
                                ms@.take(j as int),
                            ));
                        }
                    },
                }
                j = j + 1;
            }
            proof {
                assert(ms@.take(ms@.len() as int) =~= ms@);
                assert(flat_one_on_one_names(all.take(i + 1)) =~= base + member_names(ms@));
            }
        } else {
            proof {
                reveal_strlit("oneOnOne");
                assert(!is_one_on_one(all[i as int]));
                assert(flat_one_on_one_names(all.take(i + 1)) =~= flat_one_on_one_names(
                    all.take(i as int),
                ));
            }
        }
        i = i + 1;
    }
    proof {
        assert(all.take(all.len() as int) =~= all);
    }
    let ghost t = name_table(flat_one_on_one_names(all));
    if keys.len() == 0 {
        return None;
    }
    let mut best: usize = 0;
    let mut k: usize = 1;
    while k < counts.len()
        invariant
            table_inv(keys@, counts@, t),
            t.len() > 0,
            1 <= k <= t.len(),
            best < k,
            best as int == table_argmax(t, k as int),
        decreases counts@.len() - k,
    {
        if counts[k] > counts[best] {
            best = k;
        }
        k = k + 1;
    }
    if counts[best] >= 2 || one_cnt == 1 {
        Some(keys[best].clone())
    } else {
        None
    }
}


/// A member survives filtering when its display name is absent or differs
/// from the local user's.
pub open spec fn member_keeps(m: ChatMember, user: Seq<char>) -> bool {
    match m.display_name {
        Some(n) => n@ != user,
        None => true,
    }
}

/// The members that are not the local user.
pub open spec fn spec_filter_members(ms: Seq<ChatMember>, user: Seq<char>) -> Seq<ChatMember> {
    ms.filter(|m: ChatMember| member_keeps(m, user))
}

/// Remove the local user from a member list.
fn filter_members(ms: Vec<ChatMember>, user: &String) -> (r: Vec<ChatMember>)
    ensures
        r@ == spec_filter_members(ms@, user@),
{
    let mut src = ms;
    let mut out: Vec<ChatMember> = Vec::new();
    let ghost orig = src@;
    let ghost pred = |m: ChatMember| member_keeps(m, user@);
    let mut i: usize = 0;
    let n0 = src.len();
    proof {
        reveal(Seq::filter);
        assert(orig.len() == n0);
        assert(orig.take(0) =~= Seq::<ChatMember>::empty());
        assert(out@ =~= orig.take(0).filter(pred));
    }
    while src.len() > 0
        invariant
            orig.len() <= usize::MAX,
            i + src@.len() == orig.len(),
            src@ =~= orig.skip(i as int),
            out@ =~= orig.take(i as int).filter(pred),
            pred == (|m: ChatMember| member_keeps(m, user@)),
        decreases src@.len(),
    {
        let m = src.remove(0);
        proof {
            reveal(Seq::filter);
            assert(m == orig[i as int]);
            assert(orig.take(i + 1).drop_last() =~= orig.take(i as int));
            assert(orig.take(i + 1).last() == orig[i as int]);
            assert(orig.skip(i as int).remove(0) =~= orig.skip(i + 1));
            assert(src@ =~= orig.skip(i + 1));
        }
        let keep = match &m.display_name {
            Some(n) => !str_eq(n.as_str(), user.as_str()),
            None => true,
        };
        proof {
            assert(keep == pred(m));
        }
        if keep {
            out.push(m);
        }
        i = i + 1;
    }
    proof {
        assert(orig.take(orig.len() as int) =~= orig);
    }
    out
}

/// Up to `k` abbreviated display names of the members, skipping members
/// without a name.
pub open spec fn spec_abbrev_names(ms: Seq<ChatMember>, k: int) -> Seq<Seq<char>>
    decreases ms.len(),
{
    if ms.len() == 0 || k <= 0 {
        Seq::empty()
    } else {
        match ms[0].display_name {
            Some(n) => seq![spec_abbreviate(n@)] + spec_abbrev_names(ms.drop_first(), k - 1),
            None => spec_abbrev_names(ms.drop_first(), k),
        }
    }
}

/// The pieces joined by the separator.
pub open spec fn spec_join(parts: Seq<Seq<char>>, sep: Seq<char>) -> Seq<char>
    decreases parts.len(),
{
    if parts.len() == 0 {
        Seq::empty()
    } else if parts.len() == 1 {
        parts[0]
    } else {
        spec_join(parts.drop_last(), sep) + sep + parts.last()
    }
}

/// The display name of a group chat without a usable topic: up to three
/// abbreviated member names joined by a comma, or a fixed placeholder when
/// no member has a name.
pub open spec fn spec_group_name(ms: Seq<ChatMember>) -> Seq<char> {
    let names = spec_abbrev_names(ms, 3);
    if names.len() == 0 {
        "Unnamed Group"@
    } else {
        spec_join(names, ", "@)
    }
}

/// Compute the display name of a group chat from its (already filtered)
/// member list.
fn group_name(ms: &Vec<ChatMember>) -> (r: String)
    ensures
        r@ == spec_group_name(ms@),
{
    let mut names: Vec<Vec<char>> = Vec::new();
    let mut got: usize = 0;
    let mut i: usize = 0;
    let ghost f = |v: Vec<char>| v@;
    proof {
        assert(ms@.skip(0) =~= ms@);
        assert(names@.map_values(f) + spec_abbrev_names(ms@, 3) =~= spec_abbrev_names(ms@, 3));
    }
    while i < ms.len() && got < 3
        invariant
            f == (|v: Vec<char>| v@),
            i <= ms@.len(),
            got <= 3,
            got == names@.len(),
            names@.map_values(f) + spec_abbrev_names(ms@.skip(i as int), 3 - got as int)
                =~= spec_abbrev_names(ms@, 3),
            got == 3 ==> spec_abbrev_names(ms@.skip(i as int), 0) =~= Seq::<Seq<char>>::empty(),
        decreases ms@.len() - i,
    {
        proof {
            assert(ms@.skip(i as int)[0] == ms@[i as int]);
            assert(ms@.skip(i as int).drop_first() =~= ms@.skip(i + 1));
        }
        match &ms[i].display_name {
            Some(n) => {
                let a = abbreviate_name(n.as_str());
                let av = str_chars(a.as_str());
                proof {
                    assert(names@.push(av).map_values(f) =~= names@.map_values(f).push(av@));
                    assert(names@.map_values(f).push(av@) + spec_abbrev_names(
                        ms@.skip(i + 1),
                        3 - (got + 1),
                    ) =~= names@.map_values(f) + (seq![spec_abbreviate(n@)] + spec_abbrev_names(
                        ms@.skip(i + 1),
                        3 - (got + 1),
                    )));
                }
                names.push(av);
                got = got + 1;
            },
            None => {
                proof {
                    assert(spec_abbrev_names(ms@.skip(i as int), 3 - got as int)
                        =~= spec_abbrev_names(ms@.skip(i + 1), 3 - got as int));
                }
            },
        }
        i = i + 1;
    }
    proof {
        if i == ms@.len() {
            assert(ms@.skip(i as int).len() == 0);
            assert(spec_abbrev_names(ms@.skip(i as int), 3 - got as int)
                =~= Seq::<Seq<char>>::empty());
        }
        assert(names@.map_values(f) =~= spec_abbrev_names(ms@, 3));
    }
    if names.len() == 0 {
        let mut out: Vec<char> = Vec::new();
        let placeholder = str_chars("Unnamed Group");
        extend_range(&mut out, &placeholder, 0, placeholder.len());
        proof {
            assert(placeholder@.subrange(0, placeholder@.len() as int) =~= placeholder@);
            assert(out@ =~= "Unnamed Group"@);
        }
        chars_to_string(&out)
    } else {
        let sep = str_chars(", ");
        let mut out: Vec<char> = Vec::new();
        let first = &names[0];
        extend_range(&mut out, first, 0, first.len());
        proof {
            assert(first@.subrange(0, first@.len() as int) =~= first@);
            assert(names@.map_values(f).take(1).drop_last() =~= Seq::<Seq<char>>::empty());
            assert(names@.map_values(f).take(1)[0] == names@[0]@);
            assert(out@ =~= spec_join(names@.map_values(f).take(1), ", "@));
        }
        let mut k: usize = 1;
        while k < names.len()
            invariant
                f == (|v: Vec<char>| v@),
                sep@ == ", "@,
                1 <= k <= names@.len(),
                out@ =~= spec_join(names@.map_values(f).take(k as int), ", "@),
            decreases names@.len() - k,
        {
            extend_range(&mut out, &sep, 0, sep.len());
            let part = &names[k];
            extend_range(&mut out, part, 0, part.len());
            proof {
                assert(sep@.subrange(0, sep@.len() as int) =~= sep@);
                assert(part@.subrange(0, part@.len() as int) =~= part@);
                let mapped = names@.map_values(f);
                assert(mapped.take(k + 1).drop_last() =~= mapped.take(k as int));
                assert(mapped.take(k + 1).last() == names@[k as int]@);
                assert(mapped.take(k + 1).len() >= 2);
                assert(out@ =~= spec_join(mapped.take(k + 1), ", "@));
            }
            k = k + 1;
        }
        proof {
            assert(names@.map_values(f).take(names@.len() as int) =~= names@.map_values(f));
        }
        chars_to_string(&out)
    }
}

/// The derived display name of a chat whose member list has already been
/// filtered: a one-to-one chat shows the remaining member's name; a group
/// chat shows its topic when nonempty, else the joined member names; any
/// other kind shows a fixed placeholder.
pub open spec fn spec_display_name_of(c: Chat) -> Option<Seq<char>> {
    if c.chat_type@ == "oneOnOne"@ {
        if c.members@.len() > 0 {
            match c.members@[0].display_name {
                Some(n) => Some(n@),
                None => None,
            }
        } else {
            None
        }
    } else if c.chat_type@ == "group"@ {
        match c.topic {
            Some(t) => if t@.len() > 0 {
                Some(t@)
            } else {
                Some(spec_group_name(c.members@))
            },
            None => Some(spec_group_name(c.members@)),
        }
    } else {
        Some("Unknown Chat"@)
    }
}

/// Compute a chat's display name from its already-filtered members.
fn display_name_of(c: &Chat) -> (r: Option<String>)
    ensures
        match (r, spec_display_name_of(*c)) {
            (Some(a), Some(b)) => a@ == b,
            (None, None) => true,
            _ => false,
        },
{
    proof {
        reveal_strlit("oneOnOne");
        reveal_strlit("group");
        reveal_strlit("Unknown Chat");
    }
    if str_eq(c.chat_type.as_str(), "oneOnOne") {
        if c.members.len() > 0 {
            match &c.members[0].display_name {
                Some(n) => Some(n.clone()),
                None => None,
            }
        } else {
            None
        }
    } else if str_eq(c.chat_type.as_str(), "group") {
        match &c.topic {
            Some(t) => {
                if t.as_str().unicode_len() > 0 {
                    Some(t.clone())
                } else {
                    Some(group_name(&c.members))
                }
            },
            None => Some(group_name(&c.members)),
        }
    } else {
        let placeholder = str_chars("Unknown Chat");
        Some(chars_to_string(&placeholder))
    }
}

/// An output chat of the list post-processing: the source chat with the
/// local user filtered out of its members and the display name computed.
pub open spec fn chat_processed(out: Chat, src: Chat, user: Option<Seq<char>>) -> bool {
    &&& out.id == src.id
    &&& out.topic == src.topic
    &&& out.chat_type == src.chat_type
    &&& out.last_updated == src.last_updated
    &&& out.members@ == (match user {
        Some(u) => spec_filter_members(src.members@, u),
        None => src.members@,
    })
    &&& (match (out.cached_display_name, spec_display_name_of(out)) {
        (Some(a), Some(b)) => a@ == b,
        (None, None) => true,
        _ => false,
    })
}

/// Post-process a freshly fetched chat list: keep only one-to-one and group
/// chats, detect the local user, remove that user from every member list,
/// and compute each chat's display name.
pub fn process_chat_list(chats: Vec<Chat>) -> (r: (Vec<Chat>, Option<String>))
    ensures
        ({
            let kept = chats@.filter(|c: Chat| is_supported_chat(c));
            let user = spec_detect_user(kept);
            &&& (match (r.1, user) {
                (Some(a), Some(b)) => a@ == b,
                (None, None) => true,
                _ => false,
            })
            &&& r.0@.len() == kept.len()
            &&& forall|i: int| 0 <= i < kept.len() ==> chat_processed(#[trigger] r.0@[i], kept[i], user)
        }),
{
    let ghost pred = |c: Chat| is_supported_chat(c);
    let mut src = chats;
    let mut kept: Vec<Chat> = Vec::new();
    let ghost orig = src@;
    let mut i: usize = 0;
    let n0 = src.len();
    proof {
        reveal(Seq::filter);
        assert(orig.len() == n0);
        assert(orig.take(0) =~= Seq::<Chat>::empty());
        assert(kept@ =~= orig.take(0).filter(pred));
    }
    while src.len() > 0
        invariant
            orig.len() <= usize::MAX,
            i + src@.len() == orig.len(),
            src@ =~= orig.skip(i as int),
            kept@ =~= orig.take(i as int).filter(pred),
            pred == (|c: Chat| is_supported_chat(c)),
        decreases src@.len(),
    {
        let c = src.remove(0);
        proof {
            reveal(Seq::filter);
            reveal_strlit("oneOnOne");
            reveal_strlit("group");
            assert(c == orig[i as int]);
            assert(orig.take(i + 1).drop_last() =~= orig.take(i as int));
            assert(orig.take(i + 1).last() == orig[i as int]);
            assert(orig.skip(i as int).remove(0) =~= orig.skip(i + 1));
            assert(src@ =~= orig.skip(i + 1));
        }
        let keep = str_eq(c.chat_type.as_str(), "oneOnOne") || str_eq(c.chat_type.as_str(), "group");
        proof {
            assert(keep == pred(c));
        }
        if keep {
            kept.push(c);
        }
        i = i + 1;
    }
    proof {
        assert(orig.take(orig.len() as int) =~= orig);
    }
    let user = detect_current_user(&kept);
    let ghost kept_seq = kept@;
    let ghost user_spec = spec_detect_user(kept@);
    let mut out: Vec<Chat> = Vec::new();
    let mut rest = kept;
    let mut k: usize = 0;
    let n1 = rest.len();
    proof {
        assert(kept_seq.len() == n1);
    }
    while rest.len() > 0
        invariant
            kept_seq.len() <= usize::MAX,
            k + rest@.len() == kept_seq.len(),
            rest@ =~= kept_seq.skip(k as int),
            out@.len() == k,
            (match (user, user_spec) {
                (Some(a), Some(b)) => a@ == b,
                (None, None) => true,
                _ => false,
            }),
            forall|j: int| 0 <= j < k ==> chat_processed(#[trigger] out@[j], kept_seq[j], user_spec),
        decreases rest@.len(),
    {
        let c = rest.remove(0);
        proof {
            assert(c == kept_seq[k as int]);
            assert(kept_seq.skip(k as int).remove(0) =~= kept_seq.skip(k + 1));
            assert(rest@ =~= kept_seq.skip(k + 1));
        }
        let Chat { id, topic, chat_type, last_updated, members, cached_display_name: _ } = c;
        let new_members = match &user {
            Some(u) => filter_members(members, u),
            None => members,
        };
        let mut nc = Chat {
            id,
            topic,
            chat_type,
            last_updated,
            members: new_members,
            cached_display_name: None,
        };
        let dn = display_name_of(&nc);
        nc.cached_display_name = dn;
        proof {
            assert(chat_processed(nc, kept_seq[k as int], user_spec));
        }
        out.push(nc);
        k = k + 1;
    }
    (out, user)
}

} // verus!
