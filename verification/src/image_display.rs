//! Terminal image support: a picker that knows the terminal's graphics
//! protocol, a bounded least-recently-used cache of decoded images, decoding
//! of downloaded bytes, and the routing and error text of image downloads.

use vstd::prelude::*;
use crate::api::{lower_of, to_lowercase, chars_to_string};
use vstd::string::StringSliceAdditionalSpecFns;
use crate::textops::{occurs, str_chars, find_pattern, lemma_find_props, extend_range};

verus! {

#[verifier::external_type_specification]
#[verifier::external_body]
pub struct ExDynamicImage(image::DynamicImage);

#[verifier::external_type_specification]
#[verifier::external_body]
pub struct ExImageError(image::ImageError);

#[verifier::external_type_specification]
#[verifier::external_body]
pub struct ExPicker(ratatui_image::picker::Picker);

#[verifier::external_type_specification]
#[verifier::external_body]
pub struct ExStatefulProtocol(ratatui_image::protocol::StatefulProtocol);

/// The graphics protocol a terminal offers.
#[derive(PartialEq, Eq, Structural, Clone, Copy, Debug)]
pub enum ProtocolKind {
    Kitty,
    Sixel,
    Iterm2,
    Halfblocks,
}

/// Relies on `Picker::protocol_type`: each variant of the crate's protocol
/// enum is carried over to the corresponding kind, one arm each.
#[verifier::external_body]
fn query_protocol_kind(p: &ratatui_image::picker::Picker) -> ProtocolKind {
    match p.protocol_type() {
        ratatui_image::picker::ProtocolType::Kitty => ProtocolKind::Kitty,
        ratatui_image::picker::ProtocolType::Sixel => ProtocolKind::Sixel,
        ratatui_image::picker::ProtocolType::Iterm2 => ProtocolKind::Iterm2,
        ratatui_image::picker::ProtocolType::Halfblocks => ProtocolKind::Halfblocks,
    }
}

/// Relies on `Picker::from_fontsize`: builds a picker without querying the
/// terminal, from a fixed font size.
#[verifier::external_body]
#[allow(deprecated)]
fn picker_from_fontsize() -> ratatui_image::picker::Picker {
    ratatui_image::picker::Picker::from_fontsize(ratatui_image::FontSize::new(8, 12))
}

/// The capability-aware maker of terminal image protocols, with the protocol
/// kind it detected.
pub struct ImagePicker {
    picker: ratatui_image::picker::Picker,
    kind: ProtocolKind,
}

impl ImagePicker {
    /// The protocol kind this picker detected.
    pub closed spec fn spec_kind(&self) -> ProtocolKind {
        self.kind
    }

    /// Wrap an already-built picker (the terminal query happens outside this
    /// library) and record its protocol kind.
    pub fn from_picker(p: ratatui_image::picker::Picker) -> (r: Self) {
        let kind = query_protocol_kind(&p);
        ImagePicker { picker: p, kind }
    }

    /// A picker with a fixed fallback font size, for when the terminal query
    /// fails.
    pub fn with_fallback_fontsize() -> (r: Self) {
        ImagePicker::from_picker(picker_from_fontsize())
    }

    /// The protocol kind the terminal was detected to support.
    pub fn protocol_type(&self) -> (r: ProtocolKind)
        ensures
            r == self.spec_kind(),
    {
        self.kind
    }

    /// Whether the terminal supports a real graphics protocol, rather than
    /// the half-block character fallback.
    pub fn supports_graphics(&self) -> (r: bool)
        ensures
            r == (self.spec_kind() == ProtocolKind::Kitty || self.spec_kind()
                == ProtocolKind::Sixel || self.spec_kind() == ProtocolKind::Iterm2),
    {
        match self.kind {
            ProtocolKind::Kitty => true,
            ProtocolKind::Sixel => true,
            ProtocolKind::Iterm2 => true,
            ProtocolKind::Halfblocks => false,
        }
    }

    /// Relies on `Picker::new_resize_protocol`: prepares an image for
    /// rendering with automatic resizing.
    #[verifier::external_body]
    pub fn new_resize_protocol(&self, image: image::DynamicImage) -> (r:
        ratatui_image::protocol::StatefulProtocol) {
        self.picker.new_resize_protocol(image)
    }
}

/// The first position whose key is `url`, scanning from `from`.
pub open spec fn cache_key_idx(
    entries: Seq<(String, image::DynamicImage)>,
    url: Seq<char>,
    from: int,
) -> Option<int>
    decreases entries.len() - from,
{
    if from < 0 || from >= entries.len() {
        None
    } else if entries[from].0@ == url {
        Some(from)
    } else {
        cache_key_idx(entries, url, from + 1)
    }
}

/// What `cache_key_idx` returns is the first entry with the key, if any.
proof fn lemma_cache_key_idx(
    entries: Seq<(String, image::DynamicImage)>,
    url: Seq<char>,
    from: int,
)
    requires
        0 <= from,
    ensures
        match cache_key_idx(entries, url, from) {
            Some(i) => from <= i < entries.len() && entries[i].0@ == url && forall|j: int|
                from <= j < i ==> (#[trigger] entries[j]).0@ != url,
            None => forall|j: int| from <= j < entries.len() ==> (#[trigger] entries[j]).0@ != url,
        },
    decreases entries.len() - from,
{
    if from >= entries.len() {
    } else if entries[from].0@ == url {
    } else {
        lemma_cache_key_idx(entries, url, from + 1);
    }
}

/// Some entry holds the key `url`.
pub open spec fn cache_contains(entries: Seq<(String, image::DynamicImage)>, url: Seq<char>) -> bool {
    exists|i: int| 0 <= i < entries.len() && (#[trigger] entries[i]).0@ == url
}

/// A bounded cache of decoded images, keyed by URL, oldest use first: it
/// never grows past its capacity, and inserting into a full cache evicts the
/// least recently inserted entry.
pub struct ImageCache {
    entries: Vec<(String, image::DynamicImage)>,
    max_size: usize,
}

impl ImageCache {
    /// The cache never exceeds its capacity and holds each key at most once.
    pub closed spec fn wf(&self) -> bool {
        &&& self.entries@.len() <= self.max_size
        &&& forall|i: int, j: int|
            0 <= i < j < self.entries@.len() ==> (#[trigger] self.entries@[i]).0@ != (
            #[trigger] self.entries@[j]).0@
    }

    /// The entries, oldest first.
    pub closed spec fn view(&self) -> Seq<(String, image::DynamicImage)> {
        self.entries@
    }

    /// The configured capacity.
    pub closed spec fn spec_capacity(&self) -> int {
        self.max_size as int
    }

    /// An empty cache with the given capacity.
    pub fn new(max_size: usize) -> (r: Self)
        ensures
            r.wf(),
            r@.len() == 0,
            r.spec_capacity() == max_size,
    {
        ImageCache { entries: Vec::new(), max_size }
    }

    /// How many images the cache holds.
    pub fn len(&self) -> (r: usize)
        ensures
            r == self@.len(),
    {
        self.entries.len()
    }

    /// Find the position of a key.
    fn find_key(&self, url: &str) -> (r: Option<usize>)
        ensures
            match r {
                Some(i) => i < self@.len() && Some(i as int) == cache_key_idx(self@, url@, 0),
                None => cache_key_idx(self@, url@, 0) is None && !cache_contains(self@, url@),
            },
    {
        proof {
            lemma_cache_key_idx(self@, url@, 0);
        }
        let mut i: usize = 0;
        while i < self.entries.len()
            invariant
                i <= self@.len(),
                forall|j: int| 0 <= j < i ==> (#[trigger] self@[j]).0@ != url@,
            decreases self@.len() - i,
        {
            if crate::api::str_eq(self.entries[i].0.as_str(), url) {
                proof {
                    lemma_cache_key_idx(self@, url@, 0);
                    match cache_key_idx(self@, url@, 0) {
                        Some(k) => {
                            if k < i {
                                assert(self@[k].0@ != url@);
                            }
                            if k > i {
                                assert(self@[i as int].0@ != url@);
                            }
                        },
                        None => {
                            assert(self@[i as int].0@ != url@);
                        },
                    }
                }
                return Some(i);
            }
            i = i + 1;
        }
        proof {
            lemma_cache_key_idx(self@, url@, 0);
        }
        None
    }

    /// The cached image for a URL, if any.
    pub fn get(&self, url: &str) -> (r: Option<&image::DynamicImage>)
        ensures
            match r {
                Some(v) => cache_contains(self@, url@) && exists|i: int|
                    0 <= i < self@.len() && (#[trigger] self@[i]).0@ == url@ && *v == self@[i].1,
                None => !cache_contains(self@, url@),
            },
    {
        match self.find_key(url) {
            Some(i) => {
                proof {
                    lemma_cache_key_idx(self@, url@, 0);
                }
                Some(&self.entries[i].1)
            },
            None => None,
        }
    }

    /// Whether an image for this URL is cached.
    pub fn contains(&self, url: &str) -> (r: bool)
        ensures
            r == cache_contains(self@, url@),
    {
        match self.find_key(url) {
            Some(i) => {
                proof {
                    lemma_cache_key_idx(self@, url@, 0);
                }
                true
            },
            None => false,
        }
    }

    /// Insert an image under its URL. A key already present is refreshed in
    /// place of its old entry; when the cache is full, the least recently
    /// inserted entry is evicted first; the size never passes the capacity.
    pub fn insert(&mut self, url: String, image: image::DynamicImage)
        requires
            old(self).wf(),
        ensures
            final(self).wf(),
            final(self).spec_capacity() == old(self).spec_capacity(),
            final(self)@.len() <= final(self).spec_capacity(),
            old(self).spec_capacity() == 0 ==> final(self)@ == old(self)@,
            old(self).spec_capacity() > 0 ==> ({
                &&& cache_contains(final(self)@, url@)
                &&& final(self)@.last() == (url, image)
                &&& final(self)@ == (match cache_key_idx(old(self)@, url@, 0) {
                    Some(i) => old(self)@.remove(i).push((url, image)),
                    None => if old(self)@.len() < old(self).spec_capacity() {
                        old(self)@.push((url, image))
                    } else {
                        old(self)@.drop_first().push((url, image))
                    },
                })
            }),
    {
        if self.max_size == 0 {
            return ;
        }
        let ghost u = url@;
        let ghost orig = self.entries@;
        proof {
            lemma_cache_key_idx(self@, url@, 0);
        }
        match self.find_key(url.as_str()) {
            Some(i) => {
                let _old_entry = self.entries.remove(i);
                proof {
                    assert forall|j: int|
                        0 <= j < self.entries@.len() implies (#[trigger] self.entries@[j]).0@
                        != u by {
                        if j < i {
                            assert(self.entries@[j] == orig[j]);
                        } else {
                            assert(self.entries@[j] == orig[j + 1]);
                        }
                    }
                }
                self.entries.push((url, image));
                proof {
                    let n = self.entries@.len();
                    assert(self.entries@[n - 1].0@ == u);
                    assert(cache_contains(self.entries@, u));
                    assert forall|a: int, b: int|
                        0 <= a < b < n implies (#[trigger] self.entries@[a]).0@ != (
                    #[trigger] self.entries@[b]).0@ by {
                        if b < n - 1 {
                            assert(self.entries@[a] == orig.remove(i as int)[a]);
                            assert(self.entries@[b] == orig.remove(i as int)[b]);
                            if a < i {
                                assert(orig.remove(i as int)[a] == orig[a]);
                            } else {
                                assert(orig.remove(i as int)[a] == orig[a + 1]);
                            }
                            if b < i {
                                assert(orig.remove(i as int)[b] == orig[b]);
                            } else {
                                assert(orig.remove(i as int)[b] == orig[b + 1]);
                            }
                        } else {
                            assert(self.entries@[a].0@ != u);
                        }
                    }
                }
            },
            None => {
                let ghost full = self.entries.len() >= self.max_size;
                if self.entries.len() >= self.max_size {
                    let _evicted = self.entries.remove(0);
                    proof {
                        assert(self.entries@ =~= orig.drop_first());
                    }
                }
                let ghost mid = self.entries@;
                proof {
                    assert forall|j: int|
                        0 <= j < mid.len() implies (#[trigger] mid[j]).0@ != u by {
                        if full {
                            assert(mid[j] == orig[j + 1]);
                        } else {
                            assert(mid[j] == orig[j]);
                        }
                    }
                }
                self.entries.push((url, image));
                proof {
                    let n = self.entries@.len();
                    assert(self.entries@[n - 1].0@ == u);
                    assert(cache_contains(self.entries@, u));
                    assert forall|a: int, b: int|
                        0 <= a < b < n implies (#[trigger] self.entries@[a]).0@ != (
                    #[trigger] self.entries@[b]).0@ by {
                        if b < n - 1 {
                            assert(self.entries@[a] == mid[a]);
                            assert(self.entries@[b] == mid[b]);
                            if full {
                                assert(mid[a] == orig[a + 1]);
                                assert(mid[b] == orig[b + 1]);
                            } else {
                                assert(mid[a] == orig[a]);
                                assert(mid[b] == orig[b]);
                            }
                        } else {
                            assert(self.entries@[a].0@ != u);
                        }
                    }
                }
            },
        }
    }

    /// Drop every cached image.
    pub fn clear(&mut self)
        ensures
            final(self).wf(),
            final(self)@.len() == 0,
            final(self).spec_capacity() == old(self).spec_capacity(),
    {
        self.entries.clear();
    }
}

/// After any sequence of insertions into a well-formed cache, the size never
/// exceeds the capacity.
pub proof fn lemma_cache_bound(c: ImageCache)
    requires
        c.wf(),
    ensures
        c@.len() <= c.spec_capacity(),
{
}

/// Whether the image crate decodes a byte string as a known raster format:
/// a function of the bytes alone.
pub uninterp spec fn image_decode_ok(bytes: Seq<u8>) -> bool;

/// Relies on `image::load_from_memory`: guesses the format and decodes, an
/// outcome that depends on the bytes alone.
#[verifier::external_body]
fn decode_image(bytes: &[u8]) -> (r: Result<image::DynamicImage, image::ImageError>)
    ensures
        r is Ok <==> image_decode_ok(bytes@),
{
    image::load_from_memory(bytes)
}

/// Decode downloaded bytes as an image; exactly the byte strings the image
/// crate accepts yield an image, anything else the fixed error text.
pub fn load_image_from_bytes(bytes: &[u8]) -> (r: Result<image::DynamicImage, String>)
    ensures
        r is Ok <==> image_decode_ok(bytes@),
        r is Err ==> r.unwrap_err()@ == "Failed to decode image"@,
{
    match decode_image(bytes) {
        Ok(img) => Ok(img),
        Err(_) => Err("Failed to decode image".to_owned()),
    }
}

/// What url-safe unpadded base64 yields for a byte string.
pub uninterp spec fn base64_url_of(bytes: Seq<u8>) -> Seq<char>;

/// Relies on `base64::Engine::encode` with the `URL_SAFE_NO_PAD` engine: the
/// encoding is a function of the bytes alone; the length bound keeps the
/// engine's internal size computation from overflowing.
#[verifier::external_body]
fn base64_url_encode(bytes: &[u8]) -> (r: String)
    requires
        bytes@.len() <= usize::MAX / 4,
    ensures
        r@ == base64_url_of(bytes@),
{
    base64::Engine::encode(&base64::engine::general_purpose::URL_SAFE_NO_PAD, bytes)
}

/// The shares-endpoint URL for a shared file: the service's fixed prefix,
/// the base64url-encoded source URL, and the drive-item suffix.
pub open spec fn spec_shares_endpoint(url_bytes: Seq<u8>) -> Seq<char> {
    "https://graph.microsoft.com/v1.0/shares/u!"@ + base64_url_of(url_bytes) + "/driveItem"@
}

/// Convert a shared-file URL to the service's shares-endpoint URL.
pub fn url_to_shares_endpoint(url: &str) -> (r: String)
    requires
        url.spec_bytes().len() <= usize::MAX / 4,
    ensures
        r@ == spec_shares_endpoint(url.spec_bytes()),
{
    let bytes = url.as_bytes();
    let encoded = base64_url_encode(bytes);
    let prefix = str_chars("https://graph.microsoft.com/v1.0/shares/u!");
    let enc_chars = str_chars(encoded.as_str());
    let suffix = str_chars("/driveItem");
    let mut out: Vec<char> = Vec::new();
    extend_range(&mut out, &prefix, 0, prefix.len());
    extend_range(&mut out, &enc_chars, 0, enc_chars.len());
    extend_range(&mut out, &suffix, 0, suffix.len());
    proof {
        assert(prefix@.subrange(0, prefix@.len() as int) =~= prefix@);
        assert(enc_chars@.subrange(0, enc_chars@.len() as int) =~= enc_chars@);
        assert(suffix@.subrange(0, suffix@.len() as int) =~= suffix@);
        assert(out@ =~= spec_shares_endpoint(url.spec_bytes()));
    }
    chars_to_string(&out)
}

/// How an image URL is fetched: shared files go through the shares endpoint,
/// anything else is fetched directly with the bearer token.
#[derive(PartialEq, Eq, Structural, Clone, Copy, Debug)]
pub enum DownloadRoute {
    SharesEndpoint,
    Direct,
}

/// The route of a lowercased URL: shared-file hosts go through the shares
/// endpoint.
pub open spec fn spec_download_route(url_lower: Seq<char>) -> DownloadRoute {
    if occurs(url_lower, "sharepoint.com"@) || occurs(url_lower, "onedrive"@) {
        DownloadRoute::SharesEndpoint
    } else {
        DownloadRoute::Direct
    }
}

/// Decide how to fetch an image URL.
pub fn classify_download_url(url: &str) -> (r: DownloadRoute)
    ensures
        r == spec_download_route(lower_of(url@)),
{
    let lowered = to_lowercase(url);
    let lv = str_chars(lowered.as_str());
    let p1 = str_chars("sharepoint.com");
    let p2 = str_chars("onedrive");
    proof {
        lemma_find_props(lv@, p1@, 0);
        lemma_find_props(lv@, p2@, 0);
    }
    let hit1 = match find_pattern(&lv, &p1, 0) {
        Some(_) => true,
        None => false,
    };
    let hit2 = match find_pattern(&lv, &p2, 0) {
        Some(_) => true,
        None => false,
    };
    proof {
        assert(hit1 == occurs(lv@, p1@));
        assert(hit2 == occurs(lv@, p2@));
    }
    if hit1 || hit2 {
        DownloadRoute::SharesEndpoint
    } else {
        DownloadRoute::Direct
    }
}

/// The error text of a failed direct image download: an authorization
/// failure against the service's own domain carries the re-authentication
/// hint, any other authorization failure the permission hint, and any other
/// status the plain failure text.
pub open spec fn spec_download_error(status: int, label: Seq<char>, url_lower: Seq<char>) -> Seq<
    char,
> {
    if status == 401 || status == 403 {
        if occurs(url_lower, "graph.microsoft.com"@) {
            "Graph API access denied ("@ + label
                + "). Token may have expired - try deleting ~/.config/teams-tui/token.json and restart."@
        } else {
            "Access denied ("@ + label + ") - URL may require additional permissions"@
        }
    } else {
        "Failed to download image: "@ + label
    }
}

/// Compose the error text of a failed direct download from the status code,
/// its display label, and the URL.
pub fn download_error_message(status: u16, label: &str, url: &str) -> (r: String)
    ensures
        r@ == spec_download_error(status as int, label@, lower_of(url@)),
{
    let lab = str_chars(label);
    let mut out: Vec<char> = Vec::new();
    if status == 401 || status == 403 {
        let lowered = to_lowercase(url);
        let lv = str_chars(lowered.as_str());
        let pat = str_chars("graph.microsoft.com");
        proof {
            lemma_find_props(lv@, pat@, 0);
        }
        let is_graph = match find_pattern(&lv, &pat, 0) {
            Some(_) => true,
            None => false,
        };
        proof {
            assert(is_graph == occurs(lower_of(url@), "graph.microsoft.com"@));
        }
        if is_graph {
            let pre = str_chars("Graph API access denied (");
            let post = str_chars(
                "). Token may have expired - try deleting ~/.config/teams-tui/token.json and restart.",
            );
            extend_range(&mut out, &pre, 0, pre.len());
            extend_range(&mut out, &lab, 0, lab.len());
            extend_range(&mut out, &post, 0, post.len());
            proof {
                assert(pre@.subrange(0, pre@.len() as int) =~= pre@);
                assert(lab@.subrange(0, lab@.len() as int) =~= lab@);
                assert(post@.subrange(0, post@.len() as int) =~= post@);
                assert(out@ =~= spec_download_error(status as int, label@, lower_of(url@)));
            }
        } else {
            let pre = str_chars("Access denied (");
            let post = str_chars(") - URL may require additional permissions");
            extend_range(&mut out, &pre, 0, pre.len());
            extend_range(&mut out, &lab, 0, lab.len());
            extend_range(&mut out, &post, 0, post.len());
            proof {
                assert(pre@.subrange(0, pre@.len() as int) =~= pre@);
                assert(lab@.subrange(0, lab@.len() as int) =~= lab@);
                assert(post@.subrange(0, post@.len() as int) =~= post@);
                assert(out@ =~= spec_download_error(status as int, label@, lower_of(url@)));
            }
        }
    } else {
        let pre = str_chars("Failed to download image: ");
        extend_range(&mut out, &pre, 0, pre.len());
        extend_range(&mut out, &lab, 0, lab.len());
        proof {
            assert(pre@.subrange(0, pre@.len() as int) =~= pre@);
            assert(lab@.subrange(0, lab@.len() as int) =~= lab@);
            assert(out@ =~= spec_download_error(status as int, label@, lower_of(url@)));
        }
    }
    chars_to_string(&out)
}

/// The error text of a failed shares-endpoint query: an authorization
/// failure carries the permission hint, anything else the plain status.
pub open spec fn spec_shares_error(status: int, label: Seq<char>) -> Seq<char> {
    if status == 401 || status == 403 {
        "Cannot access SharePoint file via Graph API ("@ + label
            + "). Make sure Files.Read.All or Sites.Read.All permission is granted and re-authenticate."@
    } else {
        "Graph API shares endpoint returned error: "@ + label
    }
}

/// Compose the error text of a failed shares-endpoint query.
pub fn shares_error_message(status: u16, label: &str) -> (r: String)
    ensures
        r@ == spec_shares_error(status as int, label@),
{
    let lab = str_chars(label);
    let mut out: Vec<char> = Vec::new();
    if status == 401 || status == 403 {
        let pre = str_chars("Cannot access SharePoint file via Graph API (");
        let post = str_chars(
            "). Make sure Files.Read.All or Sites.Read.All permission is granted and re-authenticate.",
        );
        extend_range(&mut out, &pre, 0, pre.len());
        extend_range(&mut out, &lab, 0, lab.len());
        extend_range(&mut out, &post, 0, post.len());
        proof {
            assert(pre@.subrange(0, pre@.len() as int) =~= pre@);
            assert(lab@.subrange(0, lab@.len() as int) =~= lab@);
            assert(post@.subrange(0, post@.len() as int) =~= post@);
            assert(out@ =~= spec_shares_error(status as int, label@));
        }
    } else {
        let pre = str_chars("Graph API shares endpoint returned error: ");
        extend_range(&mut out, &pre, 0, pre.len());
        extend_range(&mut out, &lab, 0, lab.len());
        proof {
            assert(pre@.subrange(0, pre@.len() as int) =~= pre@);
            assert(lab@.subrange(0, lab@.len() as int) =~= lab@);
            assert(out@ =~= spec_shares_error(status as int, label@));
        }
    }
    chars_to_string(&out)
}

/// The error text shown when the shares response carries no download URL.
pub fn no_download_url_message() -> (r: String)
    ensures
        r@ == "No download URL in shares response - file may not be accessible"@,
{
    "No download URL in shares response - file may not be accessible".to_owned()
}

/// The error text of a failed download of the shared file itself.
pub fn sharepoint_file_error_message(label: &str) -> (r: String)
    ensures
        r@ == "Failed to download file from SharePoint: "@ + label@,
{
    let lab = str_chars(label);
    let pre = str_chars("Failed to download file from SharePoint: ");
    let mut out: Vec<char> = Vec::new();
    extend_range(&mut out, &pre, 0, pre.len());
    extend_range(&mut out, &lab, 0, lab.len());
    proof {
        assert(pre@.subrange(0, pre@.len() as int) =~= pre@);
        assert(lab@.subrange(0, lab@.len() as int) =~= lab@);
        assert(out@ =~= "Failed to download file from SharePoint: "@ + label@);
    }
    chars_to_string(&out)
}

/// The lines of the protocol report printed at startup: the protocol's name,
/// and whether full graphics are available.
pub fn protocol_info_lines(kind: ProtocolKind) -> (r: Vec<String>)
    ensures
        r@.len() == 2,
        r@[0]@ == "Image protocol: "@ + (match kind {
            ProtocolKind::Kitty => "Kitty"@,
            ProtocolKind::Sixel => "Sixel"@,
            ProtocolKind::Iterm2 => "iTerm2"@,
            ProtocolKind::Halfblocks => "Halfblocks (fallback)"@,
        }),
        r@[1]@ == (if kind == ProtocolKind::Halfblocks {
            "\u{26a0} Using Unicode halfblock fallback (limited image quality)"@
        } else {
            "\u{2713} Full graphics support available"@
        }),
{
    let name = match kind {
        ProtocolKind::Kitty => str_chars("Kitty"),
        ProtocolKind::Sixel => str_chars("Sixel"),
        ProtocolKind::Iterm2 => str_chars("iTerm2"),
        ProtocolKind::Halfblocks => str_chars("Halfblocks (fallback)"),
    };
    let pre = str_chars("Image protocol: ");
    let mut first: Vec<char> = Vec::new();
    extend_range(&mut first, &pre, 0, pre.len());
    extend_range(&mut first, &name, 0, name.len());
    proof {
        assert(pre@.subrange(0, pre@.len() as int) =~= pre@);
        assert(name@.subrange(0, name@.len() as int) =~= name@);
        assert(first@ =~= pre@ + name@);
    }
    let second: String = match kind {
        ProtocolKind::Halfblocks => "\u{26a0} Using Unicode halfblock fallback (limited image quality)".to_owned(),
        _ => "\u{2713} Full graphics support available".to_owned(),
    };
    let mut r: Vec<String> = Vec::new();
    r.push(chars_to_string(&first));
    r.push(second);
    r
}

} // verus!
