use teams_tui::api::{abbreviate_name, MessageAttachment, chars_to_string};
use teams_tui::api::{Chat, ChatMember, Message, MessageBody, MessageFrom, MessageUser,
    process_chat_list};
use teams_tui::image_display::{classify_download_url, download_error_message, ImageCache,
    load_image_from_bytes, shares_error_message, url_to_shares_endpoint, DownloadRoute};
use teams_tui::normalize::normalize_body;
use teams_tui::render::{build_message_lines, LineKind};
use teams_tui::textops::str_chars;
use teams_tui::timefmt::{header_time, parse_rfc3339};
use teams_tui::viewport::compute_scroll;
use teams_tui::wrap::wrap_text;

fn normalize_str(raw: &str) -> String {
    let chars = str_chars(raw);
    let out = normalize_body(&chars);
    chars_to_string(&out)
}

#[test]
fn normalize_strips_reference_tag_and_entity() {
    assert_eq!(normalize_str("<p>Hi&nbsp;there</p><attachment id=1/>"), "Hi there");
}

#[test]
fn normalize_expands_emoji_alt_text() {
    assert_eq!(normalize_str("a <emoji id=\"x\" alt=\"Z\"></emoji> b"), "a Z b");
    assert_eq!(normalize_str("<emoji no-alt>"), "");
}

#[test]
fn normalize_handles_paired_reference_tag() {
    assert_eq!(
        normalize_str("before<attachment id=\"9\">quoted junk</attachment>after"),
        "beforeafter"
    );
}

#[test]
fn normalize_collapses_newline_runs() {
    assert_eq!(normalize_str("a<br><br><br><br>b"), "a\n\nb");
}

#[test]
fn normalize_strips_unknown_tags() {
    assert_eq!(normalize_str("<b>bold</b> and <i>slanted</i>"), "bold and slanted");
}

#[test]
fn long_word_is_never_broken() {
    let word = "aaaaaaaaaaaaaaaaaaaaaaaaaaaaaaaaaaaaaaaaaaaaa";
    assert_eq!(word.len(), 45);
    let chars = str_chars(word);
    let lines = wrap_text(&chars, 36);
    assert_eq!(lines.len(), 1);
    assert_eq!(lines[0].len(), 45);
}

#[test]
fn words_pack_greedily_within_budget() {
    let chars = str_chars("one two three four five six seven");
    let lines = wrap_text(&chars, 10);
    let rendered: Vec<String> = lines.iter().map(|l| chars_to_string(l)).collect();
    assert_eq!(rendered, vec!["one two", "three four", "five six", "seven"]);
}

#[test]
fn test_image_cache_basic() {
    let mut cache = ImageCache::new(2);

    // Create a simple 1x1 test image
    let img = image::DynamicImage::new_rgb8(1, 1);

    assert!(!cache.contains("test1"));
    cache.insert("test1".to_string(), img.clone());
    assert!(cache.contains("test1"));
    assert!(cache.get("test1").is_some());
}

#[test]
fn test_image_cache_eviction() {
    let mut cache = ImageCache::new(2);
    let img = image::DynamicImage::new_rgb8(1, 1);

    cache.insert("img1".to_string(), img.clone());
    cache.insert("img2".to_string(), img.clone());
    assert_eq!(cache.len(), 2);

    // This should trigger eviction
    cache.insert("img3".to_string(), img.clone());
    assert_eq!(cache.len(), 2);
}

#[test]
fn cache_evicts_least_recently_inserted() {
    let mut cache = ImageCache::new(2);
    let img = image::DynamicImage::new_rgb8(1, 1);
    cache.insert("a".to_string(), img.clone());
    cache.insert("b".to_string(), img.clone());
    cache.insert("c".to_string(), img.clone());
    assert_eq!(cache.len(), 2);
    assert!(!cache.contains("a"));
    assert!(cache.contains("b"));
    assert!(cache.contains("c"));
}

#[test]
fn test_load_image_from_bytes() {
    // Encode a 1x1 image as PNG, then decode it back
    let img = image::DynamicImage::new_rgb8(1, 1);
    let mut png_bytes: Vec<u8> = Vec::new();
    img.write_to(&mut std::io::Cursor::new(&mut png_bytes), image::ImageFormat::Png)
        .expect("PNG encoding of a 1x1 image succeeds");
    let result = load_image_from_bytes(&png_bytes);
    assert!(result.is_ok());
    let garbage = load_image_from_bytes(&[0u8, 1, 2, 3]);
    assert_eq!(garbage.unwrap_err(), "Failed to decode image");
}

#[test]
fn attachment_image_detection() {
    let png = MessageAttachment {
        id: None,
        content_type: Some("IMAGE/PNG".to_string()),
        content_url: None,
        name: None,
        thumbnail_url: None,
    };
    assert!(png.is_image());
    let reference = MessageAttachment {
        id: None,
        content_type: Some("Reference".to_string()),
        content_url: None,
        name: Some("Photo.JPG".to_string()),
        thumbnail_url: None,
    };
    assert!(reference.is_image());
    let document = MessageAttachment {
        id: None,
        content_type: Some("reference".to_string()),
        content_url: None,
        name: Some("notes.pdf".to_string()),
        thumbnail_url: None,
    };
    assert!(!document.is_image());
    let untyped = MessageAttachment {
        id: None,
        content_type: None,
        content_url: None,
        name: Some("x.png".to_string()),
        thumbnail_url: None,
    };
    assert!(!untyped.is_image());
}

#[test]
fn attachment_url_prefers_thumbnail() {
    let a = MessageAttachment {
        id: None,
        content_type: Some("image/png".to_string()),
        content_url: Some("https://full".to_string()),
        name: None,
        thumbnail_url: Some("https://thumb".to_string()),
    };
    assert_eq!(a.get_image_url(), Some("https://thumb"));
    let b = MessageAttachment { thumbnail_url: None, ..a };
    assert_eq!(b.get_image_url(), Some("https://full"));
}

#[test]
fn abbreviation_keeps_first_name_and_last_initial() {
    assert_eq!(abbreviate_name("Ada Lovelace"), "Ada L");
    assert_eq!(abbreviate_name("Prince"), "Prince");
    assert_eq!(abbreviate_name("Anna Maria van Dyck"), "Anna D");
    assert_eq!(abbreviate_name(""), "");
}

#[test]
fn timestamp_parses_and_formats() {
    let t = parse_rfc3339("2025-11-21T19:11:33Z").expect("a valid timestamp parses");
    assert_eq!(t.year, 2025);
    assert_eq!(t.month, 11);
    assert_eq!(t.day, 21);
    assert_eq!(t.hour, 19);
    assert_eq!(t.minute, 11);
    let label = chars_to_string(&header_time(&t));
    assert_eq!(label, "Nov 21 19:11");
    assert!(parse_rfc3339("not a time").is_none());
}

fn msg(id: &str, when: &str, sender: &str, body: &str) -> Message {
    Message {
        id: id.to_string(),
        created_date_time: when.to_string(),
        body: Some(MessageBody {
            content: Some(body.to_string()),
            content_type: Some("html".to_string()),
        }),
        from: Some(MessageFrom {
            user: Some(MessageUser {
                display_name: Some(sender.to_string()),
            }),
        }),
        attachments: vec![],
    }
}

#[test]
fn header_suppressed_within_same_hour() {
    // The list arrives newest first; rendering shows oldest first.
    let messages = vec![
        msg("m2", "2025-11-21T19:30:00Z", "Ada", "second"),
        msg("m1", "2025-11-21T19:05:00Z", "Ada", "first"),
    ];
    let lines = build_message_lines(&messages, &None, 40, 36);
    let headers: Vec<&teams_tui::render::DisplayLine> =
        lines.iter().filter(|l| l.kind == LineKind::Header).collect();
    assert_eq!(headers.len(), 1);
    assert_eq!(headers[0].text, "Ada Nov 21 19:05");
    let bodies: Vec<String> = lines
        .iter()
        .filter(|l| l.kind == LineKind::Body)
        .map(|l| l.text.clone())
        .collect();
    assert_eq!(bodies, vec!["first", "second"]);
}

#[test]
fn header_reappears_after_hour_change() {
    let messages = vec![
        msg("m2", "2025-11-21T20:01:00Z", "Ada", "later"),
        msg("m1", "2025-11-21T19:59:00Z", "Ada", "earlier"),
    ];
    let lines = build_message_lines(&messages, &None, 40, 36);
    let headers: Vec<_> = lines.iter().filter(|l| l.kind == LineKind::Header).collect();
    assert_eq!(headers.len(), 2);
    let separators: Vec<_> = lines.iter().filter(|l| l.kind == LineKind::Separator).collect();
    assert_eq!(separators.len(), 1);
}

#[test]
fn own_messages_align_right() {
    let messages = vec![msg("m1", "2025-11-21T19:05:00Z", "Ada", "Hi")];
    let user = Some("Ada".to_string());
    let lines = build_message_lines(&messages, &user, 40, 36);
    let header = lines.iter().find(|l| l.kind == LineKind::Header).unwrap();
    assert_eq!(header.text, "Nov 21 19:05 Me");
    assert_eq!(header.pad_cols, 25);
    let body = lines.iter().find(|l| l.kind == LineKind::Body).unwrap();
    assert_eq!(body.text, "Hi");
    assert_eq!(body.pad_cols, 38);
}

#[test]
fn scroll_is_clamped_and_snaps_with_margin() {
    // Snapping: target overshoots by the margin, capped at the last line.
    let (off, max) = compute_scroll(50, 10, true, 0);
    assert_eq!(off, 45);
    assert_eq!(max, 45);
    assert!(off <= max);
    // Without snapping the offset is clamped to the basic maximum.
    let (off2, max2) = compute_scroll(50, 10, false, 60);
    assert_eq!(off2, 40);
    assert_eq!(max2, 40);
    // Everything fits: no scrolling at all.
    let (off3, max3) = compute_scroll(5, 10, true, 3);
    assert_eq!(off3, 0);
    assert_eq!(max3, 0);
}

#[test]
fn download_urls_are_routed_by_host() {
    assert_eq!(
        classify_download_url("https://contoso.SHAREPOINT.com/x/y"),
        DownloadRoute::SharesEndpoint
    );
    assert_eq!(
        classify_download_url("https://onedrive.live.com/z"),
        DownloadRoute::SharesEndpoint
    );
    assert_eq!(
        classify_download_url("https://graph.microsoft.com/v1.0/me/photo"),
        DownloadRoute::Direct
    );
}

#[test]
fn shares_endpoint_encodes_the_url() {
    assert_eq!(
        url_to_shares_endpoint("https://x"),
        "https://graph.microsoft.com/v1.0/shares/u!aHR0cHM6Ly94/driveItem"
    );
}

#[test]
fn download_errors_name_the_remedy() {
    assert_eq!(
        download_error_message(401, "401 Unauthorized", "https://GRAPH.microsoft.com/a"),
        "Graph API access denied (401 Unauthorized). Token may have expired - try deleting ~/.config/teams-tui/token.json and restart."
    );
    assert_eq!(
        download_error_message(403, "403 Forbidden", "https://elsewhere.example/a"),
        "Access denied (403 Forbidden) - URL may require additional permissions"
    );
    assert_eq!(
        download_error_message(500, "500 Internal Server Error", "https://x"),
        "Failed to download image: 500 Internal Server Error"
    );
    assert_eq!(
        shares_error_message(403, "403 Forbidden"),
        "Cannot access SharePoint file via Graph API (403 Forbidden). Make sure Files.Read.All or Sites.Read.All permission is granted and re-authenticate."
    );
    assert_eq!(
        shares_error_message(502, "502 Bad Gateway"),
        "Graph API shares endpoint returned error: 502 Bad Gateway"
    );
}

fn member(name: &str) -> ChatMember {
    ChatMember { id: None, display_name: Some(name.to_string()), email: None }
}

fn one_on_one(id: &str, members: Vec<ChatMember>) -> Chat {
    Chat {
        id: id.to_string(),
        topic: None,
        chat_type: "oneOnOne".to_string(),
        last_updated: None,
        members,
        cached_display_name: None,
    }
}

#[test]
fn chat_list_detects_user_and_derives_names() {
    let chats = vec![
        one_on_one("c1", vec![member("Hazel Quinn"), member("Ada Lovelace")]),
        one_on_one("c2", vec![member("Hazel Quinn"), member("Grace Hopper")]),
        Chat {
            id: "c3".to_string(),
            topic: Some("Compilers".to_string()),
            chat_type: "group".to_string(),
            last_updated: None,
            members: vec![member("Hazel Quinn"), member("Grace Hopper")],
            cached_display_name: None,
        },
        Chat {
            id: "c4".to_string(),
            topic: None,
            chat_type: "meeting".to_string(),
            last_updated: None,
            members: vec![],
            cached_display_name: None,
        },
    ];
    let (processed, user) = process_chat_list(chats);
    assert_eq!(user.as_deref(), Some("Hazel Quinn"));
    assert_eq!(processed.len(), 3);
    assert_eq!(processed[0].cached_display_name.as_deref(), Some("Ada Lovelace"));
    assert_eq!(processed[1].cached_display_name.as_deref(), Some("Grace Hopper"));
    assert_eq!(processed[2].cached_display_name.as_deref(), Some("Compilers"));
    assert_eq!(processed[0].members.len(), 1);
}

#[test]
fn group_without_topic_joins_abbreviated_names() {
    let chats = vec![Chat {
        id: "g".to_string(),
        topic: Some("".to_string()),
        chat_type: "group".to_string(),
        last_updated: None,
        members: vec![
            member("Ada Lovelace"),
            member("Grace Hopper"),
            member("Alan Turing"),
            member("Edsger Dijkstra"),
        ],
        cached_display_name: None,
    }];
    let (processed, user) = process_chat_list(chats);
    assert!(user.is_none());
    assert_eq!(
        processed[0].cached_display_name.as_deref(),
        Some("Ada L, Grace H, Alan T")
    );
}

#[test]
fn status_line_counts_images() {
    let line = teams_tui::ui::status_line("Loaded 3 chats", 4, 1);
    assert_eq!(
        line,
        "Loaded 3 chats | Images: 2/4 (\u{2190}/\u{2192} to browse, v to view externally)"
    );
    assert_eq!(teams_tui::ui::status_line("Ready", 0, 0), "Ready");
}
