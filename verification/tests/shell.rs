//! Contacts, cards, the composer, images, settings, the window, files and the start of the
//! program.
use std::sync::Arc;
use wire_app::attachments::{
    format_bytes, image_limit_label, image_media_type, image_placeholder, image_shown,
    preview_detail, preview_step, pressed_preview_mode, AttachmentTextureCache, ImageKind,
    ImagePreviewAction, ImagePreviewMode, ImageShown, MAX_ATTACHMENT_TEXTURES,
};
use wire_app::autostart::{
    desktop_entry, desktop_exec_escape, entry_is_off, file_entry_is_off, launch_agent, run_command,
    xml_escape,
};
use wire_app::calls::{CallDesk, CallEffect, CallState, Command, FrameShape, StreamViewMode};
use wire_app::chat_board::ChatBoard;
use wire_app::chat_view::{
    author_label, candidate_name, composer_visual_rows, delivery_of, delivery_tip, direct_row,
    display_title, empty_chat_texts, format_chat_time, group_label, group_request, is_faded,
    member_count, member_role, menu_text, message_body_text, message_card, message_gap,
    message_menu, select_conversation, shows_status_beside, starts_group, stranger_label,
    visible_messages, ChatStyle, Composer, MessageMenu,
};
use wire_app::client_status::{Availability, GroupCallAnnouncement};
use wire_app::clock::NonceSource;
use wire_app::contacts::{contact_count, name_initial, to_lower_ascii, AddFriend, Contacts, Friend};
use wire_app::conversation::{direct_conversation_id, ChatConversation, ConversationKind};
use wire_app::delivery::DeliveryState;
use wire_app::dev_pair::{
    parse_index, read_step, record_file, wait_step, ClaimOutcome, ClaimStep, DevPairState,
    ReadStep, RecordRead,
};
use wire_app::group_calls::GroupCalls;
use wire_app::host::{Removal, ServiceClient, StartError};
use wire_app::launch::{
    config_directory, is_runaway_log, log_file_name, peer_arguments, LaunchConfig, LogCap,
    MAX_LOG_BYTES, RUNAWAY_LOG_BYTES, STALE_LOG_AGE_MS,
};
use wire_app::message::{
    ChatAttachment, ChatMessage, DeleteScope, MessageDeletion, RetentionPolicy,
};
use wire_app::node::NodeId;
use wire_app::notifications::{
    notice_spec, settle_overlay, NotificationAction, NotificationKind, NotificationStore,
    OverlayStep, OverlayWindow, GROUP_WINDOW_MS, LEAVE_MS,
};
use wire_app::persistence::{
    failure_counts, next_write, read_json, sidecar, FileState, ReadError, WriteStep,
};
use wire_app::roster::{friend_node_ids, group_members_for, GroupMemberKind};
use wire_app::session::{Event, Session};
use wire_app::settings::{
    bitrate_detail, device_label, frame_detail, image_limit_choices, persisted, prompt_text,
    resolution_detail, retention_choices, startup, startup_steps, AudioQuality, Settings,
    SettingsDialog,
    SetupStep, StartWithSystem, UiAudioConfig, UpdateNews, UpdateStatus, Updater,
    WindowFrameStyle,
};
use wire_app::sort::sort_order;
use wire_app::table::Table;
use wire_app::window::{
    action_step, call_available, contacts_visible, dialogs, escape, repaint_after,
    settled_view_mode, window_title, AppMode, CloseStep, Escape, TrayAction, WindowState,
};

fn node(seed: u8) -> NodeId {
    NodeId::from_bytes(*iroh::SecretKey::from_bytes(&[seed; 32]).public().as_bytes())
}

fn friend(name: &str, seed: u8) -> Friend {
    Friend {
        name: name.to_owned(),
        node_id: node(seed).to_text(),
    }
}

fn contacts() -> Contacts {
    Contacts {
        friends: vec![friend("maya", 2)],
    }
}

fn message(seed: u8, id: &str, sent_at: i64) -> ChatMessage {
    ChatMessage {
        version: 1,
        message_id: id.to_owned(),
        author_id: node(seed).to_text(),
        sent_at,
        body: "hello".to_owned(),
        nonce: 0,
        client_version: None,
        attachments: Vec::new(),
        deletion: None,
    }
}

fn direct() -> ChatConversation {
    ChatConversation {
        id: direct_conversation_id(node(1), node(2)),
        title: "Maya".to_owned(),
        kind: ConversationKind::Direct {
            peer_id: node(2).to_text(),
        },
        members: vec![node(1).to_text(), node(2).to_text()],
        document_id: "doc".to_owned(),
        history_epoch: 0,
    }
}

// ---------------------------------------------------------------------------
// Contacts
// ---------------------------------------------------------------------------

#[test]
fn names_of_contacts_have_initials() {
    assert_eq!(name_initial("maya"), "M");
    assert_eq!(name_initial("(ökö)"), "Ö");
    assert_eq!(name_initial("ßa"), "SS");
    assert_eq!(name_initial("!?"), "?");
    assert_eq!(to_lower_ascii("AbÇ"), "abÇ");
    assert_eq!(contacts().peer_initial(&node(2)), "M");
}

#[test]
fn contacts_are_known_by_their_key() {
    let c = contacts();
    assert_eq!(c.friend_name(&node(2)).as_deref(), Some("maya"));
    assert!(c.is_friend(&node(2)));
    assert!(!c.is_friend(&node(3)));
    assert_eq!(c.peer_display_name(&node(2)), "maya");
    assert_eq!(
        c.peer_display_name(&node(3)),
        format!("Peer {}", node(3).fmt_short())
    );
}

#[test]
fn a_typed_contact_is_added_once() {
    let mut c = contacts();
    assert_eq!(c.add_friend("  ", "Ada"), AddFriend::Ignored);
    assert_eq!(c.add_friend("nonsense", "Ada"), AddFriend::Ignored);
    assert_eq!(
        c.add_friend(&format!(" {} ", node(3).to_text()), " Ada "),
        AddFriend::Added
    );
    assert_eq!(
        c.add_friend(&node(3).to_text(), "Other"),
        AddFriend::Known
    );
    assert_eq!(c.friends.len(), 2);
    assert_eq!(c.friends[0].name, "Ada");
    assert!(c.is_friend(&node(3)));
    assert_eq!(c.remove_friend(0), Some(node(3)));
    assert_eq!(c.friends.len(), 1);
}

#[test]
fn former_contacts_are_taken_over() {
    let (c, moved) = Contacts::load(None, Some(vec![friend("maya", 2)]));
    assert_eq!(c.friends.len(), 1);
    assert!(moved);
    let (c, moved) = Contacts::load(Some(vec![friend("ada", 3)]), Some(vec![friend("maya", 2)]));
    assert_eq!(c.friends[0].name, "ada");
    assert!(!moved);
    let (c, _) = Contacts::load(None, None);
    assert!(c.friends.is_empty());
}

#[test]
fn peers_of_a_development_call_become_contacts() {
    let mut c = contacts();
    assert!(!c.add_fixture_peers(&vec![node(2)]));
    assert!(c.add_fixture_peers(&vec![node(2), node(3)]));
    assert_eq!(c.friends.len(), 2);
    assert_eq!(c.friends[0].name, format!("DEV {}", node(3).fmt_short()));
}

#[test]
fn sorting_is_stable() {
    let keys = vec!["b".to_owned(), "a".to_owned(), "b".to_owned(), "a".to_owned()];
    assert_eq!(sort_order(&keys), vec![1, 3, 0, 2]);
}

#[test]
fn counts_of_contacts_have_words() {
    assert_eq!(contact_count(0), "no contacts");
    assert_eq!(contact_count(1), "1 contact");
    assert_eq!(contact_count(2), "2 contacts");
}

#[test]
fn we_keep_in_touch_with_contacts_and_members() {
    let mut conversations = Table::new();
    let mut group = direct();
    group.members = vec![node(1).to_text(), node(3).to_text(), "odd".to_owned()];
    conversations.insert("group".to_owned(), group.clone());
    let peers = friend_node_ids(&contacts(), &conversations, Some(node(1)));
    assert_eq!(peers.len(), 2);
    assert!(peers.has(&node(2)));
    assert!(peers.has(&node(3)));
    let labels = group_members_for(&group, Some(node(1)), &contacts());
    assert_eq!(labels[0].kind, GroupMemberKind::You);
    assert_eq!(labels.len(), 3);
}

// ---------------------------------------------------------------------------
// Cards
// ---------------------------------------------------------------------------

fn notice(key: &str) -> wire_app::notifications::NotificationSpec {
    notice_spec(
        NotificationKind::Info,
        key.to_owned(),
        "title".to_owned(),
        "body".to_owned(),
    )
}

#[test]
fn cards_expire_and_leave() {
    let mut store = NotificationStore::default();
    store.push(notice("a"), 0);
    let lifetime = NotificationKind::Info.default_lifetime().unwrap();
    store.advance(lifetime - 1);
    assert!(store.has_notifications());
    store.advance(lifetime);
    store.advance(lifetime + LEAVE_MS);
    assert!(!store.has_notifications());
}

#[test]
fn later_messages_get_a_card_of_their_own() {
    let card = || wire_app::notifications::message_spec(
        "c".to_owned(),
        "Maya".to_owned(),
        "Maya".to_owned(),
        "hi".to_owned(),
    );
    let mut store = NotificationStore::default();
    store.push(card(), 0);
    assert_eq!(store.visible[0].entries[0].title, "Maya");
    store.push(card(), GROUP_WINDOW_MS + 1);
    assert_eq!(store.visible.len(), 2);
    store.dismiss_key("conversation:c", GROUP_WINDOW_MS + 2);
    store.advance(GROUP_WINDOW_MS + 2 + LEAVE_MS);
    assert!(!store.has_notifications());
    store.push(card(), 0);
    store.clear();
    assert!(!store.has_notifications());
}

#[test]
fn a_card_lists_four_messages_and_counts_the_others() {
    let mut store = NotificationStore::default();
    for index in 0..6u64 {
        store.push(
            wire_app::notifications::message_spec(
                "c".to_owned(),
                "Maya".to_owned(),
                "Maya".to_owned(),
                format!("{index}"),
            ),
            index,
        );
    }
    let card = &store.visible[0];
    assert!(card.is_fused());
    assert_eq!(card.entries.len(), 4);
    assert_eq!(card.entries[0].body, "5");
    assert_eq!(card.fused_heading(), "6 NEW MESSAGES");
    assert_eq!(card.hidden_line().as_deref(), Some("+2 earlier"));
    assert!(card.is_animating(5));
    assert_eq!(store.next_repaint(false, 6), Some(16));
    let later = 1_000;
    assert_eq!(store.next_repaint(true, later), Some(16));
    assert_eq!(store.next_repaint(false, later), Some(5 + 7_000 - later));
    store.hover(0, later);
    assert_eq!(store.next_repaint(false, later), Some(7_000));
}

#[test]
fn the_window_of_the_cards_is_shown_when_it_has_settled() {
    let window = OverlayWindow {
        settled_frames: 0,
        ready: false,
    };
    let (window, step) = settle_overlay(window, true, false);
    assert_eq!(step, OverlayStep::Resize);
    let (window, step) = settle_overlay(window, false, true);
    assert_eq!(step, OverlayStep::Settle);
    let (window, step) = settle_overlay(window, false, true);
    assert_eq!(step, OverlayStep::Reveal);
    assert!(window.ready);
    let (_, step) = settle_overlay(window, false, true);
    assert_eq!(step, OverlayStep::Stay);
}

#[test]
fn a_message_is_announced_with_its_author() {
    let mut m = message(2, "m", 1);
    m.body = format!(" {} ", "x".repeat(200));
    let card = message_card("c".to_owned(), "Friends".to_owned(), &m, &contacts());
    assert_eq!(card.title, "maya - Friends");
    assert_eq!(card.body.chars().count(), 180);
    m.body = " ".to_owned();
    let card = message_card("c".to_owned(), "Friends".to_owned(), &m, &contacts());
    assert_eq!(card.body, "0 images");
    m.author_id = "odd".to_owned();
    let card = message_card("c".to_owned(), "New message".to_owned(), &m, &contacts());
    assert_eq!(card.title, "New message");
}

// ---------------------------------------------------------------------------
// Chat
// ---------------------------------------------------------------------------

#[test]
fn old_messages_are_out_of_sight() {
    let day = 86_400_000;
    let list = vec![message(2, "a", 0), message(2, "b", 9 * day)];
    let shown = visible_messages(&list, RetentionPolicy::Days(7), 10 * day);
    assert_eq!(shown.len(), 1);
    assert_eq!(shown[0].message_id, "b");
}

#[test]
fn messages_are_grouped_by_author_and_minute() {
    let list = vec![
        message(2, "a", 60_000),
        message(2, "b", 61_000),
        message(2, "c", 120_000),
    ];
    assert!(starts_group(&list, 0));
    assert!(!starts_group(&list, 1));
    assert!(starts_group(&list, 2));
    assert_eq!(message_gap(ChatStyle::Compact, &list, 0), 2);
    assert_eq!(message_gap(ChatStyle::Compact, &list, 1), 10);
    assert_eq!(message_gap(ChatStyle::Bubbles, &list, 1), 9);
}

#[test]
fn times_are_of_the_day() {
    assert_eq!(format_chat_time(0), "00:00");
    assert_eq!(format_chat_time(86_399_999), "23:59");
    assert_eq!(format_chat_time(-1), "23:59");
    assert_eq!(format_chat_time(3_660_000), "01:01");
}

#[test]
fn messages_show_who_wrote_them_and_what_is_left() {
    let mut m = message(1, "a", 0);
    assert_eq!(
        author_label(&m, &Some(node(1)), &contacts()),
        ("You".to_owned(), true)
    );
    assert_eq!(
        author_label(&message(2, "b", 0), &Some(node(1)), &contacts()),
        ("maya".to_owned(), false)
    );
    assert_eq!(message_body_text(&m).as_deref(), Some("hello"));
    m.deletion = Some(MessageDeletion::Local);
    assert_eq!(
        message_body_text(&m).as_deref(),
        Some("You deleted this message")
    );
    m.deletion = Some(MessageDeletion::Everyone);
    assert_eq!(
        message_body_text(&m).as_deref(),
        Some("This message was deleted")
    );
    m.deletion = None;
    m.body = " ".to_owned();
    assert_eq!(message_body_text(&m), None);
    m.author_id = "odd".to_owned();
    assert_eq!(author_label(&m, &None, &contacts()).0, "Unknown peer");
}

#[test]
fn the_menu_offers_what_can_be_done() {
    assert_eq!(
        message_menu(None, true),
        MessageMenu::Delete(DeleteScope::Everyone)
    );
    assert_eq!(
        message_menu(None, false),
        MessageMenu::Delete(DeleteScope::Local)
    );
    assert_eq!(
        message_menu(Some(MessageDeletion::Local), true),
        MessageMenu::Restore
    );
    assert_eq!(
        message_menu(Some(MessageDeletion::Everyone), true),
        MessageMenu::Nothing
    );
    assert_eq!(menu_text(MessageMenu::Restore), Some("Restore message"));
    assert_eq!(menu_text(MessageMenu::Nothing), None);
}

#[test]
fn delivery_has_its_words() {
    assert_eq!(
        delivery_tip(DeliveryState::Pending, &None).as_deref(),
        Some("Sending…")
    );
    assert_eq!(
        delivery_tip(DeliveryState::Queued, &None).as_deref(),
        Some("Queued — waiting for peer")
    );
    assert_eq!(
        delivery_tip(DeliveryState::Failed, &Some("no".to_owned())).as_deref(),
        Some("no")
    );
    assert_eq!(delivery_tip(DeliveryState::Delivered, &None), None);
    assert!(is_faded(DeliveryState::Retrying));
    assert!(!is_faded(DeliveryState::Failed));
    assert!(shows_status_beside(true, None, false, DeliveryState::Pending));
    assert!(!shows_status_beside(true, None, true, DeliveryState::Pending));
    let board = ChatBoard::new();
    assert_eq!(
        delivery_of(&board, &"x".to_owned()).0,
        DeliveryState::Delivered
    );
}

fn composer(text: &str) -> Composer {
    Composer {
        text: text.to_owned(),
        drafts: Vec::new(),
        error: None,
    }
}

#[test]
fn what_was_written_is_sent_once() {
    let mut nonces = NonceSource::new();
    let mut c = composer("  hi ");
    assert!(c.send_chat_composer(&None, &mut nonces).is_none());
    assert_eq!(c.text, "  hi ");
    assert_eq!(
        c.error.as_deref(),
        Some("Chat is still connecting to Iroh.")
    );
    let m = c.send_chat_composer(&Some(node(1)), &mut nonces).unwrap();
    assert_eq!(m.body, "hi");
    assert_eq!(m.author_id, node(1).to_text());
    assert_eq!(c.text, "");
    assert!(c.send_chat_composer(&Some(node(1)), &mut nonces).is_none());
    assert_eq!(composer_visual_rows("", 12), 1);
    assert_eq!(composer_visual_rows("x\n", 12), 2);
    assert_eq!(composer_visual_rows(&"x".repeat(13), 12), 2);
}

#[test]
fn conversations_have_titles_and_labels() {
    assert_eq!(display_title(&direct(), &contacts()), "maya");
    let mut group = direct();
    group.kind = ConversationKind::Group;
    assert_eq!(display_title(&group, &contacts()), "Maya");
    assert_eq!(empty_chat_texts(&None).0, "Choose a conversation");
    assert_eq!(
        empty_chat_texts(&Some("no".to_owned())),
        ("Chat is unavailable".to_owned(), "no".to_owned())
    );
    let board = ChatBoard::new();
    let row = direct_row(&contacts(), 0, &Some(node(1)), &board).unwrap();
    assert_eq!(row.label, "M   maya");
    assert_eq!(row.id, Some(direct().id));
    assert_eq!(
        stranger_label(&contacts(), &node(2)),
        format!("M   Peer {}", node(2).fmt_short())
    );
    assert_eq!(group_label("Friends"), "#   Friends");
    assert_eq!(candidate_name(" Ada ", &node(3)), "Ada");
    assert_eq!(member_count(1), "1 member");
    assert_eq!(member_count(3), "3 members");
    assert_eq!(member_role(GroupMemberKind::Unknown), "Unknown ID");
    let mut members = Table::new();
    assert!(group_request("Friends", &members).is_none());
    members.insert(node(2), ());
    assert!(group_request(" ", &members).is_none());
    assert_eq!(
        group_request(" Friends ", &members),
        Some(("Friends".to_owned(), vec![node(2)]))
    );
}

fn applied(board: &mut ChatBoard, list: Vec<ChatMessage>, now: i64) -> Vec<String> {
    board
        .apply_conversation(direct(), list, false, false, &Some(node(1)), now)
        .announce
        .into_iter()
        .map(|m| m.message_id)
        .collect()
}

#[test]
fn only_news_of_others_are_announced() {
    let mut board = ChatBoard::new();
    assert!(applied(&mut board, vec![message(2, "a", 1)], 10).is_empty());
    assert!(!board.unseen.has(&direct().id));
    assert_eq!(
        applied(
            &mut board,
            vec![message(2, "a", 1), message(2, "b", 2), message(1, "c", 3)],
            10
        ),
        vec!["b"]
    );
    assert!(board.unseen.has(&direct().id));
    board.mark_visible_conversation_seen(true);
    assert!(!board.unseen.has(&direct().id));
    let mut late = ChatBoard::new();
    late.ready = true;
    assert_eq!(
        applied(
            &mut late,
            vec![message(2, "x", 1), message(2, "y", 2)],
            10
        ),
        vec!["y"]
    );
}

#[test]
fn a_recent_send_outlives_what_the_service_lists() {
    let mut board = ChatBoard::new();
    let id = direct().id;
    applied(&mut board, vec![message(2, "a", 1)], 10);
    board.show_sent_message(&id, message(1, "mine", 1_000));
    applied(&mut board, vec![message(2, "a", 1)], 31_000);
    assert_eq!(board.timelines.get(&id).unwrap().len(), 2);
    applied(&mut board, vec![message(2, "a", 1)], 31_001);
    assert_eq!(board.timelines.get(&id).unwrap().len(), 1);
    assert_eq!(
        delivery_of(&board, &"mine".to_owned()).0,
        DeliveryState::Delivered
    );
}

#[test]
fn restoring_shows_a_deleted_message_again() {
    let mut board = ChatBoard::new();
    let id = direct().id;
    applied(&mut board, vec![message(2, "a", 1)], 10);
    board.delete_chat_message(&id, &"a".to_owned(), DeleteScope::Local);
    assert_eq!(
        board.timelines.get(&id).unwrap()[0].deletion,
        Some(MessageDeletion::Local)
    );
    board.restore_chat_message(&id, "a");
    assert_eq!(board.timelines.get(&id).unwrap()[0].deletion, None);
    board.clear_chat_history(&id);
    assert!(board.timelines.get(&id).unwrap().is_empty());
}

#[test]
fn attachments_and_older_messages_are_asked_for_once() {
    let mut board = ChatBoard::new();
    assert!(board.request_attachment("hash".to_owned()));
    assert!(!board.request_attachment("hash".to_owned()));
    board.apply_conversation(direct(), Vec::new(), true, false, &None, 0);
    assert!(board.load_older(&direct().id));
    assert!(!board.load_older(&direct().id));
    assert!(!select_conversation(&mut board, direct().id));
    assert!(select_conversation(&mut board, "new".to_owned()));
    board.apply_delivery("m".to_owned(), DeliveryState::Failed, None);
    assert_eq!(
        delivery_of(&board, &"m".to_owned()).0,
        DeliveryState::Failed
    );
}

// ---------------------------------------------------------------------------
// Images
// ---------------------------------------------------------------------------

#[test]
fn sizes_are_written_as_floating_point_would() {
    for bytes in [
        0u64,
        1,
        1023,
        1024,
        512,
        1536,
        2560,
        1_048_575,
        1_101_004,
        1_101_005,
        1_153_433,
        1_153_434,
        1_048_576,
        1_100_000,
        5_242_880,
        123_456_789,
        1_073_741_823,
        1_073_741_824,
        9_876_543_210,
    ] {
        let megabytes = bytes as f64 / (1u64 << 20) as f64;
        let expected = if bytes >= 1 << 30 {
            format!("{:.1} GB", bytes as f64 / (1u64 << 30) as f64)
        } else if bytes >= 1 << 20 && megabytes.fract() < 0.05 {
            format!("{megabytes:.0} MB")
        } else if bytes >= 1 << 20 {
            format!("{megabytes:.1} MB")
        } else {
            format!("{:.0} KB", bytes as f64 / 1024.0)
        };
        assert_eq!(format_bytes(bytes), expected);
    }
    assert_eq!(image_limit_label(Some(5 << 20)), "5 MB per image");
}

fn png(width: u32, height: u32) -> Vec<u8> {
    let mut bytes = std::io::Cursor::new(Vec::new());
    image::DynamicImage::new_rgba8(width, height)
        .write_to(&mut bytes, image::ImageFormat::Png)
        .unwrap();
    bytes.into_inner()
}

#[test]
fn an_image_is_taken_in_once() {
    let mut c = composer("");
    c.add_chat_image_bytes("a.png".to_owned(), png(3, 2), "h".to_owned());
    assert_eq!(c.drafts.len(), 1);
    assert_eq!((c.drafts[0].width, c.drafts[0].height), (3, 2));
    assert_eq!(c.drafts[0].media_type, "image/png");
    assert_eq!(c.drafts[0].byte_len, png(3, 2).len() as u64);
    c.add_chat_image_bytes("b.png".to_owned(), png(3, 2), "h".to_owned());
    assert_eq!(c.drafts.len(), 1);
    c.add_chat_image_bytes("c.txt".to_owned(), b"text".to_vec(), "t".to_owned());
    assert_eq!(c.drafts.len(), 1);
    assert!(c
        .error
        .clone()
        .unwrap()
        .starts_with("c.txt is not a supported image: "));
    c.take_image(
        "d".to_owned(),
        b"?".to_vec(),
        "d".to_owned(),
        Ok((1, 1)),
    );
    assert_eq!(c.drafts[1].media_type, "application/octet-stream");
    c.remove_draft("d");
    assert_eq!(c.drafts.len(), 1);
    c.image_unreadable("x.png", "denied");
    assert_eq!(c.error.as_deref(), Some("Could not read x.png: denied"));
    assert_eq!(image_media_type(Some(ImageKind::Jpeg)), "image/jpeg");
}

#[test]
fn images_at_hand_are_kept_within_bounds() {
    let mut cache = AttachmentTextureCache::new();
    let data = Arc::new(png(2, 2));
    let inserted = cache.insert_data("a", data.clone()).unwrap();
    let picture = inserted.picture.unwrap();
    assert_eq!((picture.width, picture.height), (2, 2));
    assert_eq!(picture.pixels.len(), 16);
    assert!(cache.insert_data("a", data.clone()).unwrap().picture.is_none());
    assert!(cache.insert_data("bad", Arc::new(b"text".to_vec())).is_none());
    for index in 0..MAX_ATTACHMENT_TEXTURES {
        let gone = cache
            .place_data(&format!("n{index}"), data.clone(), Some(16))
            .unwrap();
        assert_eq!(gone.len(), if index == MAX_ATTACHMENT_TEXTURES - 1 { 1 } else { 0 });
    }
    assert!(cache.data("a").is_none());
    assert!(!cache.touch("a"));
    assert!(cache.touch("n5"));
    assert_eq!(cache.data("n5").unwrap(), data);
    let (shown, inserted) = cache.get_or_insert("a", &None);
    assert!(!shown && inserted.is_none());
    let (shown, inserted) = cache.get_or_insert("a", &Some(data));
    assert!(shown && inserted.is_some());
}

#[test]
fn images_have_placeholders_and_previews() {
    assert_eq!(
        image_shown(10, Some(5), false, false, true),
        ImageShown::TooBig
    );
    assert_eq!(image_shown(10, None, true, false, false), ImageShown::Shown);
    assert_eq!(image_shown(10, None, false, false, true), ImageShown::Fetch);
    assert_eq!(
        image_shown(10, None, false, false, false),
        ImageShown::Loading
    );
    assert_eq!(
        image_placeholder(ImageShown::TooBig, 2048).as_deref(),
        Some("Image is too big (2 KB)")
    );
    assert_eq!(
        image_placeholder(ImageShown::Fetch, 2048).as_deref(),
        Some("Loading image… (2 KB)")
    );
    assert_eq!(image_placeholder(ImageShown::Shown, 1), None);
    assert_eq!(preview_detail(3, 2, 1024), "3 × 2 · 1 KB");
    assert_eq!(
        preview_step(ImagePreviewMode::Fullscreen, ImagePreviewAction::Close).fullscreen,
        Some(false)
    );
    assert_eq!(
        pressed_preview_mode(ImagePreviewMode::FillWindow, ImagePreviewMode::FillWindow),
        ImagePreviewMode::Floating
    );
}

// ---------------------------------------------------------------------------
// Settings and updates
// ---------------------------------------------------------------------------

#[test]
fn settings_begin_with_bubbles_and_noise_suppression() {
    let settings = Settings::default();
    assert_eq!(settings.chat_style, ChatStyle::Bubbles);
    assert!(!settings.start_with_system);
    assert!(!settings.show_system_usage);
    assert!(settings.share_system_audio);
    assert!(settings.audio.noise_suppression_enabled);
    assert!(!settings.configured);
}

#[test]
fn the_default_device_has_no_name() {
    let mut audio = UiAudioConfig::default();
    assert_eq!(audio.audio_config().input_device, None);
    audio.selected_output = "Speakers".to_owned();
    assert_eq!(
        audio.audio_config().output_device.as_deref(),
        Some("Speakers")
    );
    audio.quality = AudioQuality::Low;
    assert_eq!(audio.audio_config().quality, AudioQuality::Low);
    assert_eq!(device_label("<default>"), "System default");
    assert_eq!(device_label("Speakers"), "Speakers");
}

#[test]
fn settings_are_carried_out_in_order() {
    assert!(startup(None, true).configured);
    assert!(startup(Some(false), false).show_settings);
    assert_eq!(
        startup_steps(false, Some(1), RetentionPolicy::Days(7)),
        vec![
            SetupStep::SetMaxImageBytes(Some(1)),
            SetupStep::SetChatRetention(RetentionPolicy::Days(7)),
            SetupStep::SetFriends,
        ]
    );
    assert_eq!(startup_steps(true, None, RetentionPolicy::Unlimited).len(), 5);
    let mut dialog = SettingsDialog {
        configured: false,
        shown: true,
    };
    dialog.close();
    assert!(dialog.shown);
    let mut settings = Settings::default();
    settings.start_with_system = true;
    let steps = dialog.save(&settings);
    assert_eq!(steps[4], SetupStep::Persist);
    assert_eq!(steps[5], SetupStep::UpdateAutostart(true));
    assert!(dialog.configured && !dialog.shown);
    let mut start = StartWithSystem {
        shown: true,
        stored: false,
    };
    let stored = persisted(settings, start);
    assert!(stored.configured && !stored.start_with_system);
    assert!(!start.finished(true, false));
    assert!(!start.shown);
    assert!(start.finished(true, true));
    assert!(start.shown && start.stored);
}

#[test]
fn settings_have_their_choices_and_words() {
    assert_eq!(retention_choices().len(), 4);
    let limits = image_limit_choices();
    assert_eq!(limits[0], Some(1 << 20));
    assert_eq!(limits[8], Some(1 << 30));
    assert_eq!(limits[9], None);
    assert_eq!(
        frame_detail(WindowFrameStyle::Auto, None),
        "Square on this platform"
    );
    assert_eq!(
        frame_detail(WindowFrameStyle::Auto, Some(true)),
        "Rounded on this PC (Windows 11+)"
    );
    assert_eq!(resolution_detail(1920, 1080, 60), "1920×1080 @ 60 fps");
    assert_eq!(bitrate_detail(8_500_000), "8 Mbps effective");
}

#[test]
fn an_update_is_checked_offered_and_installed() {
    let mut updater = Updater {
        status: UpdateStatus::Idle,
        prompt: false,
        exit: false,
    };
    assert_eq!(updater.check_button(), Some("Check for updates"));
    assert!(updater.start_check());
    assert!(!updater.start_check());
    updater.apply(UpdateNews::Checked(Some("2.0".to_owned())));
    assert!(updater.shows_prompt());
    assert_eq!(
        updater.status_text().as_deref(),
        Some("Version v2.0 is available")
    );
    assert!(updater.start_download("2.0".to_owned()));
    assert!(!updater.start_download("2.0".to_owned()));
    assert!(!updater.shows_prompt());
    updater.apply(UpdateNews::RelaunchFailed("denied".to_owned()));
    assert_eq!(
        updater.status_text().as_deref(),
        Some("Downloaded the update, but could not relaunch it: denied")
    );
    assert_eq!(updater.check_button(), Some("Try again"));
    updater.apply(UpdateNews::CheckFailed("offline".to_owned()));
    assert_eq!(updater.status_text().as_deref(), Some("offline"));
    updater.apply(UpdateNews::DownloadFailed("cut".to_owned()));
    assert_eq!(updater.status_text().as_deref(), Some("cut"));
    updater.apply(UpdateNews::Checked(None));
    assert_eq!(updater.check_button(), Some("Check again"));
    updater.apply(UpdateNews::Relaunched);
    assert!(updater.exit);
    assert_eq!(
        prompt_text("2.0", "1.0"),
        "Wire v2.0 is available. You are running v1.0."
    );
}

// ---------------------------------------------------------------------------
// The window
// ---------------------------------------------------------------------------

#[test]
fn closing_the_window_hides_it_in_the_tray() {
    let mut window = WindowState::start(false);
    assert_eq!(window.handle_close_request(true), CloseStep::Let);
    assert!(window.tray_made(true, false));
    assert_eq!(window.handle_close_request(false), CloseStep::Let);
    assert_eq!(window.handle_close_request(true), CloseStep::Hide);
    assert_eq!(window.handle_close_request(true), CloseStep::Cancel);
    let step = window.process_tray(&vec![TrayAction::Show, TrayAction::Quit, TrayAction::Show]);
    assert!(step.revealed && step.focus && step.close);
    assert!(window.visible && window.quit_requested);
    assert_eq!(window.handle_close_request(true), CloseStep::Let);
    assert!(!window.quit());
    assert!(!WindowState::start(true).tray_made(false, true));
    assert!(WindowState::start(false).tray_made(false, false));
}

#[test]
fn dialogs_and_layout_follow_the_state() {
    assert_eq!(
        settled_view_mode(AppMode::Text, true, StreamViewMode::Fullscreen),
        StreamViewMode::Normal
    );
    assert_eq!(
        settled_view_mode(AppMode::Calls, true, StreamViewMode::Fullscreen),
        StreamViewMode::Fullscreen
    );
    assert!(contacts_visible(AppMode::Calls, false, false));
    assert!(!contacts_visible(AppMode::Text, true, false));
    let shown = dialogs(true, false, false, false, false);
    assert!(!shown.contacts && shown.settings && shown.cover_video);
    assert_eq!(repaint_after(true, true, true), Some(50));
    assert_eq!(repaint_after(false, false, true), Some(250));
    assert_eq!(repaint_after(true, true, false), Some(1000));
    assert_eq!(repaint_after(false, true, false), None);
    assert_eq!(escape(true, None, true), Escape::CapturePicker);
    assert_eq!(
        escape(false, Some(ImagePreviewMode::Fullscreen), true),
        Escape::ImageToFloating
    );
    assert_eq!(
        escape(false, Some(ImagePreviewMode::Floating), true),
        Escape::Image
    );
    assert_eq!(escape(false, None, true), Escape::Focus);
    assert_eq!(escape(false, None, false), Escape::ViewMode);
    assert_eq!(window_title(None, 0), "Wire");
    assert_eq!(window_title(Some("local"), 2), "Wire · DEV local · P2");
}

#[test]
fn clicks_on_cards_lead_where_they_say() {
    let open = NotificationAction::OpenConversation("c".to_owned());
    let step = action_step(&open, true);
    assert_eq!(step.mode, Some(AppMode::Text));
    assert!(step.select && step.close_settings && step.normal_layout);
    assert_eq!(action_step(&open, false).mode, None);
    let accept = NotificationAction::AcceptCall(node(2).to_text());
    assert_eq!(action_step(&accept, false).accept, Some(node(2)));
    let decline = NotificationAction::DeclineCall("odd".to_owned());
    let step = action_step(&decline, false);
    assert_eq!((step.decline, step.mode), (None, Some(AppMode::Calls)));
    assert_eq!(
        action_step(&NotificationAction::OpenCalls, false).mode,
        Some(AppMode::Calls)
    );
}

fn call(ended: Option<i64>) -> GroupCallAnnouncement {
    GroupCallAnnouncement {
        call_id: "call".to_owned(),
        conversation_id: "group".to_owned(),
        title: "Friends".to_owned(),
        initiator: node(2).to_text(),
        started_at_ms: 1,
        ended_at_ms: ended,
        participants: vec![node(2).to_text()],
    }
}

#[test]
fn a_call_that_goes_on_is_marked() {
    let mut groups = GroupCalls::load(&Table::new(), 0);
    assert!(!call_available(&groups));
    groups.client_status(node(2), Availability::Online, vec![call(Some(5))]);
    assert!(!call_available(&groups));
    groups.client_status(node(3), Availability::Online, vec![call(None)]);
    assert!(call_available(&groups));
}

// ---------------------------------------------------------------------------
// Events
// ---------------------------------------------------------------------------

fn session() -> Session {
    Session {
        our_node_id: Some(node(1)),
        contacts: contacts(),
        desk: CallDesk::new(true, false, false),
        groups: GroupCalls::load(&Table::new(), 0),
        board: ChatBoard::new(),
        mode: AppMode::Text,
        show_settings: false,
        service_error: None,
        chat_error: None,
    }
}

#[test]
fn events_change_what_they_are_about() {
    let mut s = session();
    let r = s.process_event(Event::SetCallState(node(2), CallState::Incoming), true, 0);
    assert!(matches!(r.effects[0], CallEffect::IncomingCard(_)));
    s.process_event(Event::SetCallState(node(2), CallState::Active), true, 0);
    let shape = FrameShape {
        width: 1,
        height: 1,
        source_height: 1,
        source_fps: 1,
        has_data: true,
    };
    let frame = |generation| Event::VideoFrame {
        node_id: node(2),
        generation,
        shape,
    };
    assert!(s.process_event(frame(2), true, 0).take_picture);
    assert!(!s.process_event(frame(1), true, 0).take_picture);
    s.process_event(
        Event::VideoStreamEnded {
            node_id: node(2),
            generation: 2,
        },
        true,
        0,
    );
    assert!(!s.process_event(frame(2), true, 0).take_picture);
    s.process_event(
        Event::VideoStreamAccepted {
            node_id: node(2),
            generation: 3,
        },
        true,
        0,
    );
    assert!(s.process_event(frame(3), true, 0).take_picture);
    let preview = || Event::PreviewFrame {
        width: 1,
        height: 1,
        has_data: true,
    };
    assert!(!s.process_event(preview(), true, 0).take_picture);
    let r = s.process_event(
        Event::SharingToggled {
            active: true,
            system_audio: true,
        },
        true,
        0,
    );
    assert_eq!(r.cards[0].title, "Sharing screen and sound");
    assert!(s.process_event(preview(), true, 0).take_picture);
    s.process_event(Event::SystemAudioToggled(false), true, 0);
    assert!(!s.desk.system_audio_active);
    let r = s.process_event(Event::SystemAudioFailed("no".to_owned()), true, 0);
    assert_eq!(r.cards[0].body, "no");
    let r = s.process_event(Event::SharingFailed("no".to_owned()), true, 0);
    assert_eq!(r.cards[0].title, "Could not share your screen");
}

#[test]
fn a_key_of_our_own_brings_the_development_peers() {
    let mut s = session();
    s.service_error = Some("down".to_owned());
    let r = s.process_event(
        Event::EndpointBound {
            node_id: node(5),
            call_peers: vec![node(6)],
            fixture_peers: vec![node(6)],
        },
        true,
        0,
    );
    assert_eq!(s.our_node_id, Some(node(5)));
    assert_eq!(s.service_error, None);
    assert!(r.save_friends && r.sync_friends);
    assert!(matches!(
        r.effects[0],
        CallEffect::Send(Command::Call { node_id }) if node_id == node(6)
    ));
    assert!(s.contacts.is_friend(&node(6)));
}

#[test]
fn messages_are_announced_only_out_of_sight() {
    let mut s = session();
    let listed = |list| Event::Conversation {
        conversation: direct(),
        messages: list,
        has_more: false,
    };
    let r = s.process_event(listed(vec![message(2, "a", 1)]), true, 10);
    assert!(r.sync_friends && r.cards.is_empty());
    let r = s.process_event(
        listed(vec![message(2, "a", 1), message(2, "b", 2)]),
        true,
        10,
    );
    assert!(r.cards.is_empty());
    let r = s.process_event(
        listed(vec![
            message(2, "a", 1),
            message(2, "b", 2),
            message(2, "c", 3),
        ]),
        false,
        10,
    );
    assert_eq!(r.cards.len(), 1);
    assert_eq!(r.cards[0].title, "maya - Maya");
    assert!(s.board.unseen.has(&direct().id));
}

#[test]
fn bytes_find_the_first_attachment_that_names_them() {
    let mut s = session();
    let attachment = |id: &str| ChatAttachment {
        id: id.to_owned(),
        name: "a.png".to_owned(),
        media_type: "image/png".to_owned(),
        byte_len: 1,
        width: 1,
        height: 1,
        hash: "hash".to_owned(),
        data: None,
    };
    let mut first = message(2, "a", 1);
    first.attachments = vec![attachment("one")];
    let mut second = message(2, "b", 2);
    second.attachments = vec![attachment("two")];
    s.process_event(
        Event::Conversation {
            conversation: direct(),
            messages: vec![second, first],
            has_more: false,
        },
        true,
        0,
    );
    s.board.request_attachment("hash".to_owned());
    let r = s.process_event(
        Event::AttachmentData {
            hash: "hash".to_owned(),
        },
        true,
        0,
    );
    assert_eq!(r.attachment.unwrap().id, "one");
    assert!(s.board.request_attachment("hash".to_owned()));
    let r = s.process_event(
        Event::AttachmentData {
            hash: "other".to_owned(),
        },
        true,
        0,
    );
    assert!(r.attachment.is_none());
}

#[test]
fn other_events_are_taken_in() {
    let mut s = session();
    s.process_event(Event::InitialChatLoaded, true, 0);
    assert!(s.board.ready);
    let r = s.process_event(Event::GroupCallEntered(call(None)), true, 7);
    assert!(r.save_seen);
    assert_eq!(s.mode, AppMode::Calls);
    assert!(s.groups.seen.has(&"call".to_owned()));
    s.process_event(
        Event::ClientStatus {
            peer: node(2),
            availability: Availability::Online,
            calls: vec![call(None)],
        },
        true,
        0,
    );
    assert!(s.groups.reports.has(&node(2)));
    s.process_event(
        Event::Delivery {
            message_id: "m".to_owned(),
            state: DeliveryState::Queued,
            detail: None,
        },
        true,
        0,
    );
    assert_eq!(
        delivery_of(&s.board, &"m".to_owned()).0,
        DeliveryState::Queued
    );
    let r = s.process_event(Event::ChatError("no".to_owned()), true, 0);
    assert_eq!(r.cards[0].title, "Messages need attention");
    assert_eq!(s.chat_error.as_deref(), Some("no"));
    let r = s.process_event(Event::WorkerFailed("no".to_owned()), true, 0);
    assert_eq!(r.cards[0].title, "Wire is unavailable");
    assert_eq!(s.service_error.as_deref(), Some("no"));
}

// ---------------------------------------------------------------------------
// Files and the start of the program
// ---------------------------------------------------------------------------

#[test]
fn states_of_files_decide_what_is_read() {
    let read = |primary: FileState<u8>, backup| read_json(primary, backup);
    assert_eq!(
        read(FileState::Valid(1), FileState::Valid(2)).unwrap(),
        Some(1)
    );
    assert_eq!(
        read(FileState::Missing, FileState::Valid(2)).unwrap(),
        Some(2)
    );
    assert_eq!(
        read(FileState::Invalid, FileState::Missing).unwrap_err(),
        ReadError::NoReadableBackup
    );
    assert_eq!(
        read(FileState::Invalid, FileState::Invalid).unwrap_err(),
        ReadError::BothInvalid
    );
    assert_eq!(
        read(FileState::Missing, FileState::Invalid).unwrap_err(),
        ReadError::BackupInvalid
    );
    assert_eq!(
        read(FileState::Missing, FileState::Unreadable).unwrap_err(),
        ReadError::BackupUnreadable
    );
    assert_eq!(
        read(FileState::Unreadable, FileState::Valid(2)).unwrap_err(),
        ReadError::Unreadable
    );
    assert_eq!(sidecar("state.json", "bak"), "state.json.bak");
    let mut step = WriteStep::WriteTemporary;
    let mut steps = vec![step];
    while step != WriteStep::Done {
        step = next_write(step);
        steps.push(step);
    }
    assert_eq!(
        steps,
        vec![
            WriteStep::WriteTemporary,
            WriteStep::Replace,
            WriteStep::RefreshBackup,
            WriteStep::Done,
        ]
    );
    assert!(failure_counts(WriteStep::Replace));
    assert!(!failure_counts(WriteStep::RefreshBackup));
}

#[test]
fn entries_of_the_system_escape_the_program() {
    assert_eq!(xml_escape("a<b>&\"'"), "a&lt;b&gt;&amp;&quot;&apos;");
    assert_eq!(desktop_exec_escape(r#"a\b"c"#), r#"a\\b\"c"#);
    assert!(launch_agent("/a&b").contains("<string>/a&amp;b</string>"));
    assert!(desktop_entry("/a b").contains("Exec=\"/a b\"\n"));
    assert_eq!(run_command("C:\\wire.exe"), "\"C:\\wire.exe\"");
    assert!(entry_is_off(false, false));
    assert!(!entry_is_off(false, true));
    assert!(file_entry_is_off(false, true));
    assert!(!file_entry_is_off(false, false));
}

#[test]
fn the_lock_tells_whether_another_instance_runs() {
    assert!(matches!(
        StartError::from_lock(true, None, "x"),
        StartError::AlreadyRunning
    ));
    assert!(matches!(
        StartError::from_lock(false, Some(33), "x"),
        StartError::AlreadyRunning
    ));
    assert_eq!(
        StartError::from_lock(false, Some(5), "denied").text(),
        "lock Wire instance: denied"
    );
    assert_eq!(
        StartError::AlreadyRunning.text(),
        "another Wire instance is already running"
    );
    let client = ServiceClient::new("/config");
    assert_eq!(client.activation_path(), "/config/activation.request");
    assert_eq!(
        ServiceClient::new("").activation_path(),
        "activation.request"
    );
    assert_eq!(
        ServiceClient::new("/config/").activation_path(),
        "/config/activation.request"
    );
    assert!(client.take_activation_request(Removal::Removed));
    assert!(!client.take_activation_request(Removal::Missing));
    assert!(!client.take_activation_request(Removal::Failed));
}

fn args(list: &[&str]) -> Vec<String> {
    list.iter().map(|a| a.to_string()).collect()
}

#[test]
fn arguments_ask_for_a_development_call() {
    let plain = LaunchConfig::from_args(&args(&["--other"]), 9);
    assert_eq!(plain.dev_pair_session, None);
    assert!(plain.peers_to_start().is_empty());
    let host = LaunchConfig::from_args(&args(&["--dev-pair", "--dev-auto-share"]), 9);
    assert_eq!(host.dev_pair_session.as_deref(), Some("local-9"));
    assert_eq!(host.peers_to_start(), vec![1, 2]);
    assert!(host.shares_by_itself());
    let child = LaunchConfig::from_args(&peer_arguments("room", 2), 9);
    assert_eq!(child.dev_pair_session.as_deref(), Some("room"));
    assert_eq!(child.dev_peer_index, 2);
    assert!(child.peers_to_start().is_empty());
    assert_eq!(
        LaunchConfig::from_args(&args(&["--dev-pair=a b", "--dev-child"]), 9).dev_peer_index,
        1
    );
    assert_eq!(log_file_name(&plain, 7), "wire-app-7.log");
    assert_eq!(log_file_name(&host, 7), "wire-app-dev-local-9-host-7.log");
    assert_eq!(log_file_name(&child, 7), "wire-app-dev-room-peer-2-7.log");
    assert_eq!(config_directory(2), "config-peer-2");
}

#[test]
fn logs_stay_under_their_cap() {
    let mut cap = LogCap::new(MAX_LOG_BYTES - 10);
    assert_eq!(cap.offer(4).accepted, 4);
    let step = cap.offer(10);
    assert_eq!((step.accepted, step.mark), (6, true));
    let step = cap.offer(10);
    assert_eq!((step.accepted, step.mark), (0, false));
    assert!(is_runaway_log(
        "wire-app-1.log",
        RUNAWAY_LOG_BYTES + 1,
        Some(STALE_LOG_AGE_MS)
    ));
    assert!(!is_runaway_log("wire-app-1.log", RUNAWAY_LOG_BYTES, Some(STALE_LOG_AGE_MS)));
    assert!(!is_runaway_log("other.log", u64::MAX, Some(u64::MAX)));
    assert!(!is_runaway_log("wire-app-1.log", u64::MAX, None));
}

#[test]
fn participants_find_each_other() {
    assert_eq!(parse_index("2"), 2);
    assert_eq!(parse_index("x"), 0);
    assert_eq!(record_file(0), DevPairState::new("s".to_owned(), 0).own_record());
    assert!(DevPairState::from_env(None, Some("1".to_owned())).is_none());
    let mut state =
        DevPairState::from_env(Some("my room".to_owned()), Some("2".to_owned())).unwrap();
    assert_eq!(state.session(), "myroom");
    assert_eq!(state.peer_index(), 2);
    assert_eq!(
        state.claim_step(1, ClaimOutcome::HeldByDead),
        ClaimStep::RemoveAndRetry
    );
    assert_eq!(
        state.claim_step(4, ClaimOutcome::HeldByDead),
        ClaimStep::GiveUp
    );
    assert_eq!(
        state.claim_step(1, ClaimOutcome::HeldByLive(8)),
        ClaimStep::InUse(8)
    );
    assert_eq!(state.claim_step(1, ClaimOutcome::Failed), ClaimStep::Fail);
    assert!(!state.removes_record(Some(5), 5));
    assert_eq!(state.claim_step(1, ClaimOutcome::Written), ClaimStep::Done);
    assert!(state.removes_record(Some(5), 5));
    assert!(!state.removes_record(Some(6), 5));
    assert_eq!(
        state.in_use_text(8),
        "dev-call participant index 2 is already used by process 8"
    );
    assert_eq!(
        state.give_up_text(),
        "could not register dev-call participant 2"
    );
    assert_eq!(
        state.register(&node(3), &vec![node(1).to_text(), "odd".to_owned()]),
        Err(1)
    );
    assert_eq!(read_step(1, RecordRead::Unfinished), ReadStep::Again);
    assert_eq!(read_step(20, RecordRead::Unfinished), ReadStep::Nothing);
    assert_eq!(read_step(1, RecordRead::Record), ReadStep::Take);
    assert_eq!(read_step(1, RecordRead::Missing), ReadStep::Nothing);
    assert_eq!(read_step(1, RecordRead::Failed), ReadStep::Fail);
    assert_eq!(wait_step(1, false), ReadStep::Again);
    assert_eq!(wait_step(100, false), ReadStep::Fail);
    assert_eq!(wait_step(1, true), ReadStep::Take);
}

#[test]
fn every_notification_adds_one_row() {
    let rows = |store: &NotificationStore| {
        let of = |groups: &[wire_app::notifications::NotificationGroup]| -> u64 {
            groups
                .iter()
                .map(|group| group.entries.len() as u64 + group.hidden_entries)
                .sum()
        };
        of(&store.visible) + of(&store.pending)
    };
    let mut store = NotificationStore::default();
    for count in 0..7u64 {
        let spec = wire_app::notifications::message_spec(
            "talk".to_owned(),
            "Talk".to_owned(),
            "Maya".to_owned(),
            format!("{count}"),
        );
        store.push(spec, 10);
        assert_eq!(rows(&store), count + 1);
    }
    assert_eq!(store.visible.len(), 1);
    assert_eq!(store.visible[0].entries.len(), 4);
    assert_eq!(store.visible[0].entries[0].body, "6");
    assert_eq!(store.visible[0].hidden_entries, 3);
    for count in 0..5u64 {
        let key = format!("{count}");
        let spec = notice_spec(NotificationKind::Info, key, "T".to_owned(), "B".to_owned());
        store.push(spec, 11);
        assert_eq!(rows(&store), count + 8);
    }
    assert_eq!(store.visible.len(), 4);
    assert_eq!(store.pending.len(), 2);
}

#[test]
fn contacts_are_known_by_their_trimmed_keys() {
    let contacts = Contacts {
        friends: vec![
            Friend {
                name: "maya".to_owned(),
                node_id: format!("  {} ", node(2).to_text()),
            },
            Friend {
                name: "nobody".to_owned(),
                node_id: "no key".to_owned(),
            },
        ],
    };
    let keys = contacts.keys();
    assert_eq!(keys.len(), 1);
    assert!(keys.has(&node(2)));
    assert!(!keys.has(&node(3)));
}
