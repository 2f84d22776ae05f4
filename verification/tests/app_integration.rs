use teams_tui::api::{Chat, Message, MessageBody, MessageFrom, MessageUser};
use teams_tui::app::{App, KeyInput, UiAction};
use teams_tui::auth::{poll_decision, PollDecision};

fn chat(id: &str, topic: &str, name: &str) -> Chat {
    Chat {
        id: id.to_string(),
        chat_type: "group".to_string(),
        last_updated: Some("2025-11-29T12:00:00Z".to_string()),
        topic: Some(topic.to_string()),
        members: vec![],
        cached_display_name: Some(name.to_string()),
    }
}

fn message(id: &str, when: &str, sender: &str, body: &str) -> Message {
    Message {
        id: id.to_string(),
        created_date_time: when.to_string(),
        body: Some(MessageBody {
            content: Some(body.to_string()),
            content_type: Some("html".to_string()),
        }),
        from: Some(MessageFrom {
            user: Some(MessageUser {
                display_name: Some(sender.to_string()),
            }),
        }),
        attachments: vec![],
    }
}

#[test]
fn test_mark_message_as_read_updates_state() {
    let mut app = App::new();
    let chat_id = "chat123".to_string();
    let user_id = Some("user456".to_string());
    app.chats.push(chat("chat123", "Test Topic", "Test Chat"));
    assert_eq!(app.chats[0].id, chat_id);
    app.selected_index = 0;
    app.current_user_name = user_id.clone();
    app.messages = vec![message("msg1", "2025-11-29T12:00:00Z", "user456", "Hello")];

    // Simulate marking as read: for this model, just check message presence
    assert_eq!(
        app.messages[0].body.as_ref().unwrap().content.as_deref(),
        Some("Hello")
    );
}

#[test]
fn test_app_state_transition_on_chat_selection() {
    let mut app = App::new();
    app.chats = vec![chat("chat1", "Topic 1", "Chat 1"), chat("chat2", "Topic 2", "Chat 2")];
    app.selected_index = 0;
    app.next_chat();
    assert_eq!(app.selected_index, 1);
    app.previous_chat();
    assert_eq!(app.selected_index, 0);
}

#[test]
fn stale_message_snapshot_is_discarded() {
    let mut app = App::new();
    app.chats = vec![chat("chat1", "Topic 1", "Chat 1"), chat("chat2", "Topic 2", "Chat 2")];
    app.selected_index = 0;
    app.messages = vec![message("m1", "2025-11-29T12:00:00Z", "A", "old")];
    let snapshot = vec![message("m2", "2025-11-29T12:05:00Z", "B", "new")];
    let applied = app.apply_message_snapshot(1, snapshot);
    assert!(!applied);
    assert_eq!(app.messages.len(), 1);
    assert_eq!(app.messages[0].id, "m1");
}

#[test]
fn identical_snapshot_skips_rerender() {
    let mut app = App::new();
    app.chats = vec![chat("chat1", "Topic 1", "Chat 1")];
    app.selected_index = 0;
    app.messages = vec![message("m1", "2025-11-29T12:00:00Z", "A", "hi")];
    app.snap_to_bottom = false;
    let same = vec![message("m1", "2025-11-29T12:00:00Z", "A", "hi")];
    let applied = app.apply_message_snapshot(0, same);
    assert!(!applied);
    assert!(!app.snap_to_bottom);
    let different = vec![
        message("m1", "2025-11-29T12:00:00Z", "A", "hi"),
        message("m2", "2025-11-29T12:01:00Z", "A", "more"),
    ];
    let applied2 = app.apply_message_snapshot(0, different);
    assert!(applied2);
    assert!(app.snap_to_bottom);
    assert_eq!(app.messages.len(), 2);
}

#[test]
fn chat_snapshot_reanchors_selection_by_id() {
    let mut app = App::new();
    app.chats = vec![chat("a", "T", "A"), chat("b", "T", "B")];
    app.selected_index = 1;
    let refreshed = vec![chat("b", "T", "B"), chat("c", "T", "C"), chat("a", "T", "A")];
    let refetch = app.apply_chat_snapshot(refreshed);
    assert_eq!(app.selected_index, 0);
    let (id, idx) = refetch.expect("the selected chat is still present");
    assert_eq!(id, "b");
    assert_eq!(idx, 0);
}

#[test]
fn chat_snapshot_clamps_when_selection_vanishes() {
    let mut app = App::new();
    app.chats = vec![chat("a", "T", "A"), chat("b", "T", "B"), chat("c", "T", "C")];
    app.selected_index = 2;
    let refreshed = vec![chat("x", "T", "X")];
    let refetch = app.apply_chat_snapshot(refreshed);
    assert!(refetch.is_none());
    assert_eq!(app.selected_index, 0);
    assert_eq!(app.status, "Loaded 1 chats");
}

#[test]
fn quit_key_only_outside_compose_mode() {
    let mut app = App::new();
    let action = app.handle_key(KeyInput::Char('q'));
    assert!(matches!(action, UiAction::Quit));
    app.enter_compose();
    let action2 = app.handle_key(KeyInput::Char('q'));
    assert!(matches!(action2, UiAction::DoNothing));
    assert_eq!(app.input_buffer, "q");
}

#[test]
fn page_scroll_controls_snapping() {
    let mut app = App::new();
    app.max_scroll = 40;
    app.scroll_offset = 30;
    app.snap_to_bottom = true;
    app.handle_key(KeyInput::PageUp);
    assert!(!app.snap_to_bottom);
    assert_eq!(app.scroll_offset, 20);
    app.handle_key(KeyInput::PageDown);
    assert_eq!(app.scroll_offset, 30);
    assert!(!app.snap_to_bottom);
    app.handle_key(KeyInput::PageDown);
    app.handle_key(KeyInput::PageDown);
    assert!(app.scroll_offset >= app.max_scroll);
    assert!(app.snap_to_bottom);
}

#[test]
fn send_request_takes_buffer_and_snaps() {
    let mut app = App::new();
    app.chats = vec![chat("chat9", "T", "C")];
    app.selected_index = 0;
    app.enter_compose();
    app.push_input_char('h');
    app.push_input_char('i');
    let req = app.take_send_request().expect("a chat is selected");
    assert_eq!(req.0, "chat9");
    assert_eq!(req.1, 0);
    assert_eq!(req.2, "hi");
    assert!(!app.input_mode);
    assert_eq!(app.input_buffer, "");
    assert!(app.snap_to_bottom);
}

#[test]
fn selection_change_clears_and_requests_messages() {
    let mut app = App::new();
    app.chats = vec![chat("a", "T", "A"), chat("b", "T", "B")];
    app.selected_index = 0;
    app.messages = vec![message("m", "2025-11-29T12:00:00Z", "A", "x")];
    app.next_chat();
    let req = app.reload_after_selection(0).expect("selection moved");
    assert_eq!(req.0, "b");
    assert_eq!(req.1, 1);
    assert!(app.loading_messages);
    assert!(app.messages.is_empty());
}

#[test]
fn token_freshness_and_poll_decisions() {
    assert!(teams_tui::auth::token_is_fresh(1000, 600));
    assert!(!teams_tui::auth::token_is_fresh(900, 600));
    assert!(!teams_tui::auth::token_is_fresh(100, 600));
    let t = teams_tui::auth::TokenResponse {
        access_token: "SECRET-REDACTED".to_string(),
        token_type: "Bearer".to_string(),
        expires_in: 3600,
        refresh_token: None,
        expires_at: 0,
    };
    let stamped = teams_tui::auth::fix_loaded_token(t, 1000);
    assert_eq!(stamped.expires_at, 4600);
    assert_eq!(poll_decision("authorization_pending"), PollDecision::KeepPolling);
    assert_eq!(poll_decision("authorization_declined"), PollDecision::Declined);
    assert_eq!(poll_decision("expired_token"), PollDecision::Expired);
    assert_eq!(poll_decision("slow_down"), PollDecision::OtherError);
}

#[test]
fn client_id_precedence() {
    let (id, fallback) =
        teams_tui::auth::choose_client_id(Some("env-id".to_string()), Some("cfg-id".to_string()));
    assert_eq!(id, "env-id");
    assert!(!fallback);
    let (id2, fallback2) = teams_tui::auth::choose_client_id(None, Some("cfg-id".to_string()));
    assert_eq!(id2, "cfg-id");
    assert!(!fallback2);
    let (id3, fallback3) = teams_tui::auth::choose_client_id(None, None);
    assert_eq!(id3, "d3590ed6-52b3-4102-aeff-aad2292ab01c");
    assert!(fallback3);
}

#[test]
fn undecodable_bytes_surface_a_decode_error() {
    let mut app = App::new();
    app.viewable_images.push(teams_tui::app::ViewableImage {
        name: "pic".to_string(),
        url: "https://img/1".to_string(),
    });
    let url = app.view_current_image().expect("an image is selected");
    assert_eq!(url, "https://img/1");
    assert!(app.loading_image);
    let applied = app.accept_image_bytes("https://img/1", &[0u8, 1, 2, 3]);
    assert!(!applied);
    assert!(!app.loading_image);
    assert_eq!(app.image_error.as_deref(), Some("Failed to decode image"));
}

#[test]
fn download_failure_lands_in_the_error_slot() {
    let mut app = App::new();
    app.viewable_images.push(teams_tui::app::ViewableImage {
        name: "pic".to_string(),
        url: "https://img/1".to_string(),
    });
    app.view_current_image().expect("an image is selected");
    // A failure for another URL is stale and changes nothing.
    let stale = app.accept_image_failure("https://img/other", "gone".to_string());
    assert!(!stale);
    assert!(app.loading_image);
    assert!(app.image_error.is_none());
    // The failure for the viewed URL persists in the error slot.
    let applied = app.accept_image_failure("https://img/1", "Failed to download image: 500".to_string());
    assert!(applied);
    assert!(!app.loading_image);
    assert_eq!(app.image_error.as_deref(), Some("Failed to download image: 500"));
}
