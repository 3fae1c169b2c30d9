//! The behaviour of each part on chosen inputs.
use wire_app::calls::{friend_call_enabled, next_deafen_audio_state, CallState};
use wire_app::chat_board::should_mark_conversation_unseen;
use wire_app::chat_view::{composer_visual_rows, messages_share_compact_group};
use wire_app::client_status::{
    group_call_is_advertisable, Availability, GroupCallAnnouncement, ProbeHealth, StatusPacket,
    MISSED_GROUP_CALL_TTL_MS,
};
use wire_app::clock::NonceSource;
use wire_app::conversation::{direct_conversation_id, ChatConversation, ConversationKind};
use wire_app::delivery::delivery_retry_delay;
use wire_app::dev_pair::{sanitize_session, DevPairState};
use wire_app::group_calls::incoming_call_requires_group_switch;
use wire_app::hotkeys::{Action, KeyEdges};
use wire_app::message::{ChatMessage, RetentionPolicy, MAX_MESSAGE_BYTES};
use wire_app::node::NodeId;
use wire_app::notifications::{
    NotificationKind, NotificationSpec, NotificationStore, LEAVE_MS, MAX_VISIBLE,
};
use wire_app::persistence::{needs_backup, read_json, FileState};
use wire_app::roster::{
    format_group_member_summary, group_member_labels, unknown_direct_conversations,
    GroupMemberKind,
};
use wire_app::streams::{fit_stream_info_badges, format_stream_quality};
use wire_app::table::Table;
use wire_app::text::ellipsize;
use wire_app::window::{wgpu_surface_error_action, SurfaceError, SurfaceErrorAction};

fn node(seed: u8) -> NodeId {
    NodeId::from_bytes(*iroh::SecretKey::from_bytes(&[seed; 32]).public().as_bytes())
}

fn message(author: &str, sent_at: i64) -> ChatMessage {
    ChatMessage {
        version: 1,
        message_id: format!("{author}-{sent_at}"),
        author_id: author.to_owned(),
        sent_at,
        body: "hello".to_owned(),
        nonce: 0,
        client_version: None,
        attachments: Vec::new(),
        deletion: None,
    }
}

#[test]
fn reconfigures_surfaces_that_can_recover() {
    assert!(matches!(
        wgpu_surface_error_action(SurfaceError::Lost),
        SurfaceErrorAction::RecreateSurface
    ));
    assert!(matches!(
        wgpu_surface_error_action(SurfaceError::Other),
        SurfaceErrorAction::RecreateSurface
    ));
}

#[test]
fn skips_frames_for_transient_or_resource_errors() {
    for error in [
        SurfaceError::Outdated,
        SurfaceError::Timeout,
        SurfaceError::OutOfMemory,
    ] {
        assert!(matches!(
            wgpu_surface_error_action(error),
            SurfaceErrorAction::SkipFrame
        ));
    }
}

#[test]
fn unseen_indicator_requires_a_new_remote_message_in_a_hidden_conversation() {
    let message = ChatMessage {
        version: 1,
        message_id: "message-1".to_owned(),
        author_id: "alice".to_owned(),
        sent_at: 1,
        body: "hello".to_owned(),
        nonce: 0,
        client_version: None,
        attachments: Vec::new(),
        deletion: None,
    };

    assert!(should_mark_conversation_unseen(
        false,
        Some(&vec![message.clone()])
    ));
    assert!(!should_mark_conversation_unseen(true, Some(&vec![message])));
    assert!(!should_mark_conversation_unseen(false, Some(&vec![])));
    assert!(!should_mark_conversation_unseen(false, None));
}

#[test]
fn unknown_direct_conversations_stay_visible_until_the_peer_is_a_friend() {
    let peer = node(17);
    let direct = ChatConversation {
        id: "unknown-direct".to_owned(),
        title: "Direct".to_owned(),
        kind: ConversationKind::Direct {
            peer_id: peer.to_text(),
        },
        members: Vec::new(),
        document_id: "document".to_owned(),
        history_epoch: 0,
    };
    let mut conversations = Table::new();
    conversations.insert(direct.id.clone(), direct);

    assert_eq!(
        unknown_direct_conversations(&conversations, &Table::new()),
        vec![("unknown-direct".to_owned(), peer)]
    );
    let mut known = Table::new();
    known.insert(peer, ());
    assert!(unknown_direct_conversations(&conversations, &known).is_empty());
}

#[test]
fn group_members_label_friends_and_unknown_ids() {
    let you = node(1);
    let alice = node(2);
    let bob = node(3);
    let stranger = node(4);
    let members = vec![
        stranger.to_text(),
        bob.to_text(),
        you.to_text(),
        alice.to_text(),
        "not-a-node-id".to_owned(),
    ];
    let mut names = Table::new();
    names.insert(alice, "Alice".to_owned());
    names.insert(bob, "Bob".to_owned());

    let labels = group_member_labels(&members, Some(you), &names);

    assert_eq!(labels.len(), 5);
    assert_eq!(labels[0].kind, GroupMemberKind::You);
    assert_eq!(labels[0].text, "You");
    assert_eq!(labels[0].node_id, Some(you));
    assert_eq!(labels[1].kind, GroupMemberKind::Friend);
    assert_eq!(labels[1].text, "Alice");
    assert_eq!(labels[1].node_id, Some(alice));
    assert_eq!(labels[2].kind, GroupMemberKind::Friend);
    assert_eq!(labels[2].text, "Bob");
    assert_eq!(labels[2].node_id, Some(bob));
    assert_eq!(labels[3].kind, GroupMemberKind::Unknown);
    assert_eq!(labels[3].text, "not-a-node-id");
    assert_eq!(labels[3].node_id, None);
    assert_eq!(labels[4].kind, GroupMemberKind::Unknown);
    assert_eq!(labels[4].text, format!("Peer {}", stranger.fmt_short()));
    assert_eq!(labels[4].node_id, Some(stranger));
    assert_eq!(
        format_group_member_summary(&labels),
        format!(
            "You, Alice, Bob, not-a-node-id, Peer {}",
            stranger.fmt_short()
        )
    );
}

#[test]
fn group_member_summary_handles_an_empty_roster() {
    assert_eq!(format_group_member_summary(&vec![]), "No members");
}

#[test]
fn deafen_and_mute_toggle_together() {
    assert_eq!(next_deafen_audio_state(false), (true, true));
    assert_eq!(next_deafen_audio_state(true), (false, false));
}

#[test]
fn friend_call_button_is_disabled_while_a_call_is_visible() {
    assert!(friend_call_enabled(None));
    assert!(friend_call_enabled(Some(CallState::Aborted)));
    assert!(!friend_call_enabled(Some(CallState::Incoming)));
    assert!(!friend_call_enabled(Some(CallState::Calling)));
    assert!(!friend_call_enabled(Some(CallState::Active)));
}

#[test]
fn unrelated_incoming_call_requires_leaving_the_group_first() {
    let local = GroupCallAnnouncement {
        call_id: "room-a".to_owned(),
        conversation_id: "group-a".to_owned(),
        title: "Friends".to_owned(),
        initiator: "alice".to_owned(),
        started_at_ms: 1,
        ended_at_ms: None,
        participants: vec!["alice".to_owned()],
    };
    let same_room = GroupCallAnnouncement {
        participants: vec!["bob".to_owned()],
        ..local.clone()
    };
    let other_room = GroupCallAnnouncement {
        call_id: "room-b".to_owned(),
        conversation_id: "group-b".to_owned(),
        ..same_room.clone()
    };

    assert!(!incoming_call_requires_group_switch(
        Some(&local),
        Some(&vec![same_room]),
    ));
    assert!(incoming_call_requires_group_switch(
        Some(&local),
        Some(&vec![other_room]),
    ));
    assert!(incoming_call_requires_group_switch(Some(&local), None));
    assert!(!incoming_call_requires_group_switch(None, None));
}

#[test]
fn stream_overlay_formats_quality_as_height_and_fps() {
    assert_eq!(format_stream_quality(1080, 60).as_deref(), Some("1080p@60"));
    assert_eq!(format_stream_quality(720, 30).as_deref(), Some("720p@30"));
    assert_eq!(format_stream_quality(0, 60), None);
    assert_eq!(format_stream_quality(1080, 0), None);
}

/// The badges on a stream where each character is eight wide, a badge has ten on either side and
/// there are six between badges.
fn badges(name: &str, quality: Option<&str>, available: f32) -> Vec<String> {
    let width = |text: &str| text.chars().count() as f32 * 8.0 + 20.0;
    let both = match quality {
        Some(quality) => width(name) + width(quality) + 6.0 <= available,
        None => false,
    };
    fit_stream_info_badges(name, quality, both, |text: &str| width(text) <= available)
}

#[test]
fn stream_overlay_keeps_quality_beside_the_name() {
    assert_eq!(badges("Ada", Some("1080p@60"), 400.0), ["Ada", "1080p@60"]);
}

#[test]
fn stream_overlay_drops_quality_when_the_tile_is_narrow() {
    assert_eq!(
        badges("Long display name", Some("1080p@60"), 180.0),
        ["Long display name"]
    );
    assert_eq!(badges("Ada", Some("1080p@60"), 80.0), ["Ada"]);
    assert_eq!(badges("Long display name", None, 80.0), ["Long d…"]);
}

#[test]
fn compact_chat_groups_only_same_author_in_same_minute() {
    assert!(messages_share_compact_group(
        &message("alice", 60_001),
        &message("alice", 119_999),
    ));
    assert!(!messages_share_compact_group(
        &message("alice", 119_999),
        &message("alice", 120_000),
    ));
    assert!(!messages_share_compact_group(
        &message("alice", 60_001),
        &message("bob", 60_002),
    ));
}

fn rows(text: &str, width: f32) -> usize {
    composer_visual_rows(text, (width / 7.2).floor().max(12.0) as usize)
}

#[test]
fn composer_grows_for_newlines_and_wrapped_text() {
    assert_eq!(rows("one line", 500.0), 1);
    assert_eq!(rows("one\ntwo\nthree\nfour", 500.0), 4);
    assert!(rows(&"x".repeat(200), 140.0) > 3);
    assert_eq!(rows(&"x".repeat(10_000), 140.0), 8);
}

#[test]
fn long_stream_names_are_clipped_cleanly() {
    assert_eq!(ellipsize("Ada", 8), "Ada");
    assert_eq!(ellipsize("Long display name", 8), "Long di…");
}

#[test]
fn direct_ids_are_symmetric() {
    assert_eq!(
        direct_conversation_id(node(1), node(2)),
        direct_conversation_id(node(2), node(1))
    );
}

#[test]
fn messages_have_unique_sortable_immutable_keys() {
    let a = node(1);
    let mut nonces = NonceSource::new();
    let first = ChatMessage::new(a, "hello".to_owned(), &mut nonces);
    let second = ChatMessage::new(a, "world".to_owned(), &mut nonces);
    assert_ne!(first.message_id, second.message_id);
    assert_ne!(first.entry_key(), second.entry_key());
    assert!(first.entry_key().starts_with("message/"));
    assert!(first.validate().is_ok());
}

#[test]
fn retention_is_local_time_filtering() {
    let now = 100 * 24 * 60 * 60 * 1000;
    assert!(RetentionPolicy::Unlimited.includes(0, now));
    assert!(RetentionPolicy::Days(7).includes(now - 6 * 24 * 60 * 60 * 1000, now));
    assert!(!RetentionPolicy::Days(7).includes(now - 8 * 24 * 60 * 60 * 1000, now));
}

#[test]
fn long_messages_have_no_ui_sized_limit_but_keep_a_safety_cap() {
    let mut nonces = NonceSource::new();
    let message = ChatMessage::new(node(1), "x".repeat(200_000), &mut nonces);
    assert!(message.validate().is_ok());
    let too_large = ChatMessage::new(node(1), "x".repeat(MAX_MESSAGE_BYTES + 1), &mut nonces);
    assert!(too_large.validate().is_err());
}

#[test]
fn delivery_retries_are_bounded_and_desynchronised() {
    let first = delivery_retry_delay("dm/example-a", 1);
    let second = delivery_retry_delay("dm/example-b", 1);
    assert!(first >= 400);
    assert!(first < 700);
    assert!(delivery_retry_delay("dm/example", 99) <= 4_000);
    assert_ne!(
        first, second,
        "conversation-specific jitter avoids retry herds"
    );
}

#[test]
fn status_packet_rejects_unknown_protocol_versions() {
    let mut packet = StatusPacket::new(Availability::Online, Vec::new());
    packet.protocol_version = 1;
    assert!(packet.validate().is_err());
}

#[test]
fn status_packet_bounds_group_call_metadata() {
    let mut packet = StatusPacket::new(
        Availability::Online,
        vec![GroupCallAnnouncement {
            call_id: "call".to_owned(),
            conversation_id: "group".to_owned(),
            title: "Group".to_owned(),
            initiator: "peer".to_owned(),
            started_at_ms: 1,
            ended_at_ms: None,
            participants: vec!["x".repeat(129)],
        }],
    );
    assert!(packet.validate().is_err());
    packet.active_group_calls[0].participants = vec!["peer".to_owned()];
    packet.validate().unwrap();
}

#[test]
fn transient_and_stale_probe_failures_do_not_withdraw_presence() {
    let mut health = ProbeHealth::default();
    let first = health.begin();
    assert!(!health.failed(first));

    let second = health.begin();
    assert!(!health.failed(first), "stale completion must be ignored");
    assert!(!health.failed(second));

    let third = health.begin();
    assert!(health.failed(third));
    assert!(!health.failed(third), "offline is emitted only once");

    let recovered = health.begin();
    assert!(health.succeeded(recovered));
    let after_recovery = health.begin();
    assert!(!health.failed(after_recovery));
}

#[test]
fn inbound_heartbeat_invalidates_a_racing_failed_probe() {
    let mut health = ProbeHealth::default();
    let generation = health.begin();
    health.observed_inbound();
    assert!(!health.failed(generation));
    assert_eq!(health.consecutive_failures, 0);
}

#[test]
fn missed_group_call_advertisements_expire() {
    let now = 2 * MISSED_GROUP_CALL_TTL_MS;
    let mut call = GroupCallAnnouncement {
        call_id: "call".to_owned(),
        conversation_id: "group".to_owned(),
        title: "Group".to_owned(),
        initiator: "peer".to_owned(),
        started_at_ms: 1,
        ended_at_ms: None,
        participants: vec!["peer".to_owned()],
    };
    assert!(group_call_is_advertisable(&call, now));
    call.ended_at_ms = Some(now - 1_000);
    assert!(group_call_is_advertisable(&call, now));
    call.ended_at_ms = Some(now - MISSED_GROUP_CALL_TTL_MS);
    assert!(!group_call_is_advertisable(&call, now));
}

#[test]
fn sanitizes_session_for_file_names() {
    assert_eq!(sanitize_session("local benchmark #1"), "localbenchmark1");
    assert_eq!(sanitize_session("../"), "local");
    assert_eq!(sanitize_session("a_b-c"), "a_b-c");
}

#[test]
fn three_participants_form_a_full_mesh() {
    let node_ids = vec![node(31), node(32), node(33)];
    let records: Vec<String> = node_ids.iter().map(|id| id.to_text()).collect();
    let states: Vec<DevPairState> = (0..3)
        .map(|index| DevPairState::new("test".to_owned(), index))
        .collect();

    assert!(states[0]
        .register(&node_ids[0], &records[..0].to_vec())
        .unwrap()
        .is_empty());
    assert_eq!(
        states[1]
            .register(&node_ids[1], &records[..1].to_vec())
            .unwrap(),
        vec![node_ids[0]]
    );
    assert_eq!(
        states[2]
            .register(&node_ids[2], &records[..2].to_vec())
            .unwrap(),
        vec![node_ids[0], node_ids[1]]
    );
}

#[test]
fn emits_once_on_each_press_not_while_held() {
    let mut edges = KeyEdges::default();
    assert_eq!(edges.update(true, false), [Some(Action::ToggleMute), None]);
    assert_eq!(edges.update(true, false), [None, None]);
    assert_eq!(edges.update(false, false), [None, None]);
    assert_eq!(edges.update(true, false), [Some(Action::ToggleMute), None]);
}

#[test]
fn tracks_right_shift_and_right_control_independently() {
    let mut edges = KeyEdges::default();
    assert_eq!(
        edges.update(false, true),
        [None, Some(Action::ToggleDeafen)]
    );
    assert_eq!(edges.update(true, true), [Some(Action::ToggleMute), None]);
    assert_eq!(edges.update(true, true), [None, None]);
}

fn card(key: &str, body: &str) -> NotificationSpec {
    NotificationSpec {
        group_key: Some(key.to_owned()),
        kind: NotificationKind::Message,
        title: "Maya".to_owned(),
        body: body.to_owned(),
        action: None,
        buttons: Vec::new(),
    }
}

#[test]
fn messages_from_the_same_conversation_fuse() {
    let now = 5_000;
    let mut store = NotificationStore::default();
    store.push(card("conversation:one", "first"), now);
    store.push(card("conversation:one", "second"), now + 1_000);

    assert_eq!(store.visible.len(), 1);
    assert_eq!(store.visible[0].entries.len(), 2);
    assert_eq!(store.visible[0].entries[0].body, "second");
}

#[test]
fn overflow_is_queued_and_promoted_after_dismissal() {
    let now = 5_000;
    let mut store = NotificationStore::default();
    for index in 0..=MAX_VISIBLE {
        store.push(card(&format!("conversation:{index}"), "hello"), now);
    }
    assert_eq!(store.visible.len(), MAX_VISIBLE);
    assert_eq!(store.pending.len(), 1);

    let id = store.visible[0].id;
    store.dismiss_id(id, now);
    store.advance(now + LEAVE_MS);
    assert_eq!(store.visible.len(), MAX_VISIBLE);
    assert!(store.pending.is_empty());
}

#[test]
fn critical_notifications_do_not_expire() {
    assert_eq!(NotificationKind::IncomingCall.default_lifetime(), None);
    assert!(NotificationKind::Error.default_lifetime().is_some());
}

/// What a file with these bytes holds.
fn file(bytes: Option<&[u8]>) -> FileState<Vec<String>> {
    match bytes {
        None => FileState::Missing,
        Some(bytes) => match serde_json::from_slice(bytes) {
            Ok(value) => FileState::Valid(value),
            Err(_) => FileState::Invalid,
        },
    }
}

#[test]
fn round_trips_json_and_recovers_from_a_torn_primary() {
    let expected = vec!["one".to_owned(), "two".to_owned()];
    let written = serde_json::to_vec_pretty(&expected).unwrap();

    assert!(!needs_backup(&file(Some(&written))));
    assert_eq!(
        read_json(file(Some(&written)), FileState::Missing).unwrap(),
        Some(expected.clone())
    );

    assert!(needs_backup(&file(Some(b"{truncated"))));
    assert_eq!(
        read_json(file(Some(b"{truncated")), file(Some(&written))).unwrap(),
        Some(expected)
    );
}

#[test]
fn missing_file_is_distinct_from_an_empty_value() {
    assert_eq!(read_json(file(None), file(None)).unwrap(), None);

    let written = serde_json::to_vec_pretty(&Vec::<String>::new()).unwrap();
    assert_eq!(
        read_json(file(Some(&written)), file(Some(&written))).unwrap(),
        Some(Vec::new())
    );
}
