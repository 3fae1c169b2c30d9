//! Calls, streams, group calls and presence.
use wire_app::call_view::{
    accept_incoming_call, active_call_indicator, answer_texts, availability_text, chat_status,
    chip_status_text, dial_status, friend_row, group_call_button, group_summary, idle_status,
    incoming_belongs_to_local_group, leave_all_calls, participant_chip, share_tip, sharing_note,
    ChipStatus, Tone,
};
use wire_app::calls::{
    call_key, connected_card, control_sound, fullscreen_change, incoming_card, CallDesk,
    CallEffect, CallState, Command, FrameShape, Fullscreen, Sound, StreamSource, StreamViewMode,
};
use wire_app::client_status::{
    Availability, ClientStatusProtocol, GroupCallAnnouncement, StatusError, StatusPacket,
    APP_VERSION,
};
use wire_app::contacts::{Contacts, Friend};
use wire_app::conversation::{ChatConversation, ConversationKind};
use wire_app::group_calls::{peers_of_members, GroupCalls};
use wire_app::node::NodeId;
use wire_app::notifications::{NotificationAction, NotificationKind};
use wire_app::streams::{
    choose_target, empty_stage, empty_stage_texts, fit_stream_info_badges, picker_outcome, pressed_view_mode, share_cycles,
    stage_detail, stream_count, target_detail, tile_buttons, tile_tip, EmptyStage, PickerInput,
    PickerOutcome, TileButton,
};
use wire_app::table::Table;

fn node(seed: u8) -> NodeId {
    NodeId::from_bytes(*iroh::SecretKey::from_bytes(&[seed; 32]).public().as_bytes())
}

fn shape(height: u32) -> FrameShape {
    FrameShape {
        width: 16,
        height,
        source_height: 1080,
        source_fps: 60,
        has_data: true,
    }
}

fn desk() -> CallDesk {
    CallDesk::new(true, false, false)
}

fn groups() -> GroupCalls {
    GroupCalls::load(&Table::new(), 0)
}

fn contacts() -> Contacts {
    Contacts {
        friends: vec![Friend {
            name: "maya".to_owned(),
            node_id: node(2).to_text(),
        }],
    }
}

fn call(id: &str, conversation: &str, started: i64, ended: Option<i64>) -> GroupCallAnnouncement {
    GroupCallAnnouncement {
        call_id: id.to_owned(),
        conversation_id: conversation.to_owned(),
        title: "Friends".to_owned(),
        initiator: node(2).to_text(),
        started_at_ms: started,
        ended_at_ms: ended,
        participants: vec![node(2).to_text()],
    }
}

fn names(effects: &Vec<CallEffect>) -> Vec<String> {
    effects
        .iter()
        .map(|effect| match effect {
            CallEffect::IncomingCard(_) => "incoming card".to_owned(),
            CallEffect::DismissCard(_) => "dismiss".to_owned(),
            CallEffect::ConnectedCard(_) => "connected card".to_owned(),
            CallEffect::Play(sound) => format!("{sound:?}"),
            CallEffect::DropMedia(_) => "drop".to_owned(),
            CallEffect::Send(Command::ToggleSharing { enabled, .. }) => {
                format!("share {enabled}")
            }
            CallEffect::Send(Command::HandleIncoming { accept, .. }) => {
                format!("accept {accept}")
            }
            CallEffect::Send(command) => format!("{command:?}"),
            CallEffect::Ring(on) => format!("ring {on}"),
        })
        .collect()
}

// ---------------------------------------------------------------------------
// Calls
// ---------------------------------------------------------------------------

#[test]
fn a_call_rings_connects_and_ends() {
    let mut d = desk();
    let peer = node(2);
    assert_eq!(
        names(&d.set_call_state(peer, CallState::Incoming)),
        vec!["incoming card", "ring true"]
    );
    assert_eq!(
        names(&d.set_call_state(peer, CallState::Incoming)),
        vec!["ring true"]
    );
    assert!(!d.has_active_call());
    assert!(d.has_visible_call(false));
    assert_eq!(
        names(&d.set_call_state(peer, CallState::Active)),
        vec!["Success", "dismiss", "connected card", "ring false"]
    );
    assert!(d.has_active_call());
    assert_eq!(
        names(&d.set_call_state(peer, CallState::Aborted)),
        vec!["dismiss", "drop", "ring false"]
    );
    assert_eq!(d.call_state(&peer), None);
}

#[test]
fn a_call_that_is_not_answered_sounds_unless_we_hung_up() {
    let mut d = desk();
    d.set_call_state(node(2), CallState::Calling);
    assert_eq!(
        names(&d.set_call_state(node(2), CallState::Aborted)),
        vec!["dismiss", "Fail", "drop", "ring false"]
    );
    d.set_call_state(node(2), CallState::Calling);
    let (sound, command) = d.hang_up_call(node(2));
    assert_eq!(sound, Sound::Whoosh1);
    assert!(matches!(command, Command::Abort { .. }));
    assert_eq!(
        names(&d.set_call_state(node(2), CallState::Aborted)),
        vec!["dismiss", "drop", "ring false"]
    );
    assert_eq!(d.voluntary_hangups, 0);
}

#[test]
fn sharing_ends_with_the_last_active_call() {
    let mut d = desk();
    d.set_call_state(node(2), CallState::Active);
    d.set_call_state(node(3), CallState::Active);
    d.sharing_toggled(true, true);
    assert_eq!(
        names(&d.set_call_state(node(2), CallState::Aborted)),
        vec!["dismiss", "drop", "ring false"]
    );
    assert_eq!(
        names(&d.set_call_state(node(3), CallState::Aborted)),
        vec!["dismiss", "drop", "share false", "ring false"]
    );
}

#[test]
fn a_development_call_accepts_and_shares_by_itself() {
    let mut d = CallDesk::new(false, true, true);
    assert_eq!(
        names(&d.set_call_state(node(2), CallState::Incoming)),
        vec!["ring false", "accept true"]
    );
    assert_eq!(
        names(&d.set_call_state(node(2), CallState::Active)),
        vec!["Success", "dismiss", "connected card", "ring false", "share true"]
    );
}

#[test]
fn muting_and_deafening_send_their_commands() {
    let mut d = desk();
    let (sound, command) = d.toggle_muted();
    assert_eq!(sound, Sound::Button1);
    assert!(matches!(command, Command::SetMuted { muted: true }));
    let (_, commands) = d.toggle_deafened();
    assert!(d.muted && d.deafened);
    assert!(commands
        .iter()
        .any(|c| matches!(c, Command::SetDeafened { deafened: true })));
    d.toggle_deafened();
    assert!(!d.muted && !d.deafened);
    assert_eq!(control_sound(true), Sound::Button1);
    assert_eq!(control_sound(false), Sound::Button2);
}

#[test]
fn cards_of_calls_name_the_peer() {
    let card = incoming_card(&node(2), "Maya".to_owned());
    assert_eq!(card.group_key, Some(call_key(&node(2))));
    assert_eq!(card.kind, NotificationKind::IncomingCall);
    assert_eq!(card.buttons[0].label, "Decline");
    assert_eq!(
        card.buttons[0].action,
        NotificationAction::DeclineCall(node(2).to_text())
    );
    assert!(!card.buttons[0].emphasized);
    assert_eq!(card.buttons[1].label, "Accept");
    assert!(card.buttons[1].emphasized);
    assert_eq!(
        card.buttons[1].action,
        NotificationAction::AcceptCall(node(2).to_text())
    );
    let card = connected_card(&node(2), "Maya".to_owned());
    assert_eq!(card.title, "Call connected");
    assert_eq!(card.body, "Maya");
    assert_eq!(
        card.group_key,
        Some(format!("call-connected:{}", node(2).to_text()))
    );
}

#[test]
fn computer_sound_is_set_only_where_it_changes() {
    let mut d = desk();
    assert!(matches!(d.set_share_system_audio(true), Some(None)));
    d.sharing_toggled(true, true);
    assert!(d.set_share_system_audio(true).is_none());
    assert!(matches!(
        d.set_share_system_audio(false),
        Some(Some(Command::SetSystemAudio { enabled: false }))
    ));
    d.system_audio_toggled(true);
    assert!(d.system_audio_active);
    let card = d.system_audio_failed("no device".to_owned());
    assert_eq!(card.title, "Could not share computer sound");
    assert!(!d.system_audio_active);
    let card = d.sharing_failed("denied".to_owned());
    assert_eq!(card.body, "denied");
    assert_eq!(d.capture_error, Some("denied".to_owned()));
    d.system_audio_toggled(true);
    assert!(!d.system_audio_active);
}

// ---------------------------------------------------------------------------
// Streams
// ---------------------------------------------------------------------------

#[test]
fn only_the_newest_stream_counts() {
    let mut d = desk();
    let peer = node(2);
    assert!(!d.video_frame(peer, 1, shape(9)));
    d.set_call_state(peer, CallState::Active);
    d.video_stream_accepted(peer, 5);
    assert!(!d.video_frame(peer, 4, shape(9)));
    assert!(d.video_frame(peer, 5, shape(9)));
    assert!(!d.video_stream_ended(peer, 4));
    assert_eq!(d.active_stream_sources().len(), 1);
    assert!(d.video_stream_ended(peer, 5));
    assert!(d.active_stream_sources().is_empty());
    assert!(!d.video_frame(peer, 5, shape(9)));
    assert!(d.video_frame(peer, 6, shape(9)));
}

#[test]
fn a_stream_that_is_not_watched_shows_nothing_until_it_is() {
    let mut d = desk();
    let peer = node(2);
    d.set_call_state(peer, CallState::Active);
    d.video_frame(peer, 5, shape(9));
    assert!(matches!(
        d.stop_watching(peer),
        Some(Command::SetWatching {
            generation: 5,
            watching: false,
            ..
        })
    ));
    assert!(!d.video_frame(peer, 5, shape(9)));
    assert_eq!(d.stopped_stream_nodes(), vec![peer]);
    assert!(matches!(
        d.resume_watching(peer),
        Some(Command::SetWatching {
            generation: 5,
            watching: true,
            ..
        })
    ));
    assert!(d.resume_watching(peer).is_none());
    assert!(d.video_frame(peer, 5, shape(9)));
}

#[test]
fn a_hidden_window_pauses_what_was_watched() {
    let mut d = desk();
    for seed in [2, 3] {
        d.set_call_state(node(seed), CallState::Active);
        d.video_frame(node(seed), 1, shape(9));
    }
    d.stop_watching(node(3));
    let (paused, commands) = d.pause_remote_video_for_hidden_window();
    assert_eq!(paused, vec![node(2)]);
    assert_eq!(commands.len(), 1);
    assert_eq!(d.stopped_stream_nodes().len(), 2);
    let commands = d.resume_hidden_video(&paused);
    assert_eq!(commands.len(), 1);
    assert_eq!(d.stopped_stream_nodes(), vec![node(3)]);
}

#[test]
fn our_own_picture_is_there_only_while_sharing() {
    let mut d = desk();
    d.preview_frame(16, 9, true);
    assert!(!d.local_stream_ready());
    let card = d.sharing_toggled(true, false);
    assert_eq!(card.title, "Screen sharing started");
    d.preview_frame(16, 9, true);
    assert!(d.local_stream_ready());
    assert_eq!(
        d.stream_size(&StreamSource::Local),
        Some((16, 9))
    );
    let card = d.sharing_toggled(false, false);
    assert_eq!(card.title, "Screen sharing stopped");
    assert!(!d.local_stream_ready());
    assert!(d.preview.is_none());
}

#[test]
fn streams_are_named_after_their_peer() {
    let d = desk();
    assert_eq!(
        d.stream_label(&StreamSource::Remote(node(2)), &contacts()),
        "maya"
    );
    assert!(CallDesk::needs_upload(1, 2, 16, 9, true));
    assert!(!CallDesk::needs_upload(2, 2, 16, 9, true));
    assert_eq!(stream_count(1), "1 stream");
    assert_eq!(stream_count(3), "3 streams");
}

#[test]
fn the_empty_stage_tells_why_it_is_empty() {
    assert_eq!(empty_stage(true, false, 0), EmptyStage::NeedsAccess);
    assert_eq!(empty_stage(false, true, 0), EmptyStage::Starting);
    assert_eq!(empty_stage(false, false, 2), EmptyStage::Paused);
    assert_eq!(empty_stage(false, false, 0), EmptyStage::Idle);
    let texts = empty_stage_texts(EmptyStage::Paused, false, "", &vec!["Maya".to_owned()]);
    assert_eq!(texts.title, "Maya's stream is paused");
    assert_eq!(texts.button, "Resume watching");
    let texts = empty_stage_texts(EmptyStage::NeedsAccess, false, "denied", &vec![]);
    assert_eq!(texts.detail, "denied");
    assert_eq!(texts.button, "Share your screen");
}

#[test]
fn view_modes_toggle_and_leave_the_full_screen() {
    assert_eq!(
        pressed_view_mode(StreamViewMode::Normal, StreamViewMode::Fullscreen),
        StreamViewMode::Fullscreen
    );
    assert_eq!(
        pressed_view_mode(StreamViewMode::Fullscreen, StreamViewMode::Fullscreen),
        StreamViewMode::Normal
    );
    assert_eq!(
        fullscreen_change(StreamViewMode::Fullscreen, StreamViewMode::Normal),
        Fullscreen::Leave
    );
    assert_eq!(
        fullscreen_change(StreamViewMode::Normal, StreamViewMode::Fullscreen),
        Fullscreen::Enter
    );
    assert_eq!(
        fullscreen_change(StreamViewMode::Normal, StreamViewMode::FillWindow),
        Fullscreen::Keep
    );
    assert!(StreamViewMode::Fullscreen.is_fullscreen());
}

#[test]
fn tiles_have_the_buttons_of_their_source() {
    assert_eq!(
        tile_buttons(&StreamSource::Local),
        vec![TileButton::Focus, TileButton::Audio]
    );
    assert_eq!(
        tile_buttons(&StreamSource::Remote(node(2))),
        vec![TileButton::Focus, TileButton::Stop]
    );
    assert_ne!(
        tile_tip(TileButton::Focus, true, true),
        tile_tip(TileButton::Focus, false, true)
    );
}

#[test]
fn the_picker_begins_at_the_primary_screen() {
    assert_eq!(choose_target(&vec![false, true]), Some(1));
    assert_eq!(choose_target(&vec![false, false]), Some(0));
    assert_eq!(choose_target(&vec![]), None);
    let input = PickerInput {
        start: true,
        refresh: false,
        cancel: false,
        open: true,
        selected: Some(1),
        targets: 2,
    };
    match picker_outcome(input, true) {
        PickerOutcome::Share(Command::ToggleSharing {
            enabled, target, ..
        }) => assert_eq!((enabled, target), (true, Some(1))),
        other => panic!("{other:?}"),
    }
    assert!(matches!(
        picker_outcome(
            PickerInput {
                start: false,
                cancel: true,
                ..input
            },
            true
        ),
        PickerOutcome::Close
    ));
    assert_eq!(target_detail(1920, 1080, false), "1920 × 1080");
    assert_eq!(share_cycles(2), vec![(2_000, false), (1_000, true), (2_000, false)]);
    assert!(share_cycles(0).is_empty());
}

// ---------------------------------------------------------------------------
// Group calls
// ---------------------------------------------------------------------------

#[test]
fn the_latest_group_call_is_shown_with_everyone_in_it() {
    let mut g = groups();
    g.client_status(
        node(2),
        Availability::Online,
        vec![call("old", "group", 1, None), call("new", "group", 2, None)],
    );
    let mut other = call("new", "group", 2, None);
    other.participants = vec![node(3).to_text()];
    g.client_status(node(3), Availability::Online, vec![other]);
    let shown = g.group_call_for("group").unwrap();
    assert_eq!(shown.call_id, "new");
    let mut both = vec![node(2).to_text(), node(3).to_text()];
    both.sort();
    assert_eq!(shown.participants, both);
    assert!(g.group_call_for("other").is_none());
    g.client_status(node(2), Availability::Offline, Vec::new());
    g.client_status(node(3), Availability::Offline, Vec::new());
    assert!(g.group_call_for("group").is_none());
}

#[test]
fn acknowledged_calls_are_not_missed() {
    let now = 2 * 86_400_000;
    let mut g = groups();
    g.client_status(
        node(2),
        Availability::Online,
        vec![call("c", "group", 1, Some(now - 1_000))],
    );
    assert!(g.missed_group_call("group", &Some(node(1)), now));
    assert!(!g.missed_group_call("group", &Some(node(2)), now));
    g.acknowledge_missed_group_calls("group", now);
    assert!(!g.missed_group_call("group", &Some(node(1)), now));
}

#[test]
fn seen_calls_are_forgotten_after_a_week() {
    let week = 7 * 86_400_000;
    let mut seen = Table::new();
    seen.insert("old".to_owned(), 0i64);
    seen.insert("new".to_owned(), 10i64);
    let g = GroupCalls::load(&seen, week + 5);
    assert!(!g.seen.has(&"old".to_owned()));
    assert!(g.seen.has(&"new".to_owned()));
}

fn group() -> ChatConversation {
    ChatConversation {
        id: "group".to_owned(),
        title: "Friends".to_owned(),
        kind: ConversationKind::Group,
        members: vec![
            node(1).to_text(),
            node(2).to_text(),
            node(3).to_text(),
            "odd".to_owned(),
        ],
        document_id: "doc".to_owned(),
        history_epoch: 0,
    }
}

#[test]
fn entering_a_group_call_tells_the_members() {
    let mut g = groups();
    g.client_status(node(2), Availability::Online, Vec::new());
    let entered = g.enter_group_call(&group(), None, &node(1), 1_000);
    assert_eq!(entered.call.participants, vec![node(1).to_text()]);
    assert_eq!(entered.call.started_at_ms, 1_000);
    assert_eq!(entered.notify, vec![node(2), node(3)]);
    assert!(g.local.is_some());
    assert!(g.seen.has(&entered.call.call_id));
    let mut conversations = Table::new();
    conversations.insert("group".to_owned(), group());
    assert_eq!(
        g.leave_group_call(&conversations, &Some(node(1))),
        Some(vec![node(2), node(3)])
    );
    assert_eq!(g.leave_group_call(&conversations, &Some(node(1))), None);
    assert_eq!(
        peers_of_members(&group().members, &Some(node(1))),
        vec![node(2), node(3)]
    );
}

#[test]
fn joining_a_group_call_keeps_who_is_in_it() {
    let mut g = groups();
    let existing = call("room", "group", 5, None);
    g.client_status(node(2), Availability::Online, vec![existing.clone()]);
    let entered = g.enter_group_call(&group(), Some(existing), &node(1), 1_000);
    let mut both = vec![node(1).to_text(), node(2).to_text()];
    both.sort();
    assert_eq!(entered.call.participants, both);
    assert_eq!(entered.call.call_id, "room");
    assert_eq!(entered.targets, vec![node(2)]);
}

#[test]
fn answering_another_call_leaves_the_group_first() {
    let mut d = desk();
    let mut g = groups();
    g.local = Some(call("room", "group", 5, None));
    d.set_call_state(node(2), CallState::Active);
    d.set_call_state(node(3), CallState::Incoming);
    assert!(!incoming_belongs_to_local_group(&g, &node(3)));
    let mut conversations = Table::new();
    conversations.insert("group".to_owned(), group());
    let answer = accept_incoming_call(&mut d, &mut g, node(3), &conversations, &Some(node(1)));
    assert_eq!(answer.aborts.len(), 1);
    assert!(matches!(answer.aborts[0], Command::Abort { node_id } if node_id == node(2)));
    assert_eq!(answer.leave, Some(vec![node(2), node(3)]));
    assert!(matches!(
        answer.accept,
        Command::HandleIncoming { accept: true, .. }
    ));
    assert!(g.local.is_none());
}

#[test]
fn answering_within_the_group_keeps_its_calls() {
    let mut d = desk();
    let mut g = groups();
    g.local = Some(call("room", "group", 5, None));
    g.client_status(node(3), Availability::Online, vec![call("room", "group", 5, None)]);
    d.set_call_state(node(2), CallState::Active);
    d.set_call_state(node(3), CallState::Incoming);
    assert!(incoming_belongs_to_local_group(&g, &node(3)));
    let answer =
        accept_incoming_call(&mut d, &mut g, node(3), &Table::new(), &Some(node(1)));
    assert!(answer.aborts.is_empty());
    assert_eq!(answer.leave, None);
    assert!(g.local.is_some());
}

#[test]
fn leaving_ends_every_call() {
    let mut d = desk();
    let mut g = groups();
    let none = leave_all_calls(&mut d, &mut g, &Table::new(), &None);
    assert!(none.aborts.is_empty());
    d.set_call_state(node(2), CallState::Active);
    d.set_call_state(node(3), CallState::Calling);
    let left = leave_all_calls(&mut d, &mut g, &Table::new(), &None);
    assert_eq!(left.aborts.len(), 2);
    assert!(left.sound.is_some());
}

// ---------------------------------------------------------------------------
// What is said of calls
// ---------------------------------------------------------------------------

#[test]
fn the_indicator_names_the_call() {
    let mut d = desk();
    assert!(active_call_indicator(&d, &groups(), &contacts()).is_none());
    d.set_call_state(node(2), CallState::Active);
    let shown = active_call_indicator(&d, &groups(), &contacts()).unwrap();
    assert_eq!(shown.tone, Tone::Good);
    assert_eq!(shown.label, "In call · maya");
    let mut g = groups();
    g.local = Some(call("room", "group", 5, None));
    let shown = active_call_indicator(&d, &g, &contacts()).unwrap();
    assert_eq!(shown.label, "In group call · Friends");
    assert_eq!(shown.detail, "Friends · 2 in call");
}

#[test]
fn chips_show_what_a_peer_does() {
    let mut d = desk();
    let chip = participant_chip(&d, &groups(), &contacts(), &node(2), CallState::Calling);
    assert_eq!(chip.status, ChipStatus::Connecting);
    assert_eq!(chip.initial, "M");
    d.set_call_state(node(2), CallState::Active);
    d.video_frame(node(2), 1, shape(9));
    let chip = participant_chip(&d, &groups(), &contacts(), &node(2), CallState::Active);
    assert_eq!(chip.status, ChipStatus::Streaming);
    assert!(chip.active);
    assert_eq!(chip_status_text(ChipStatus::Nothing), None);
    assert_eq!(chip_status_text(ChipStatus::Paused), Some("paused"));
    assert_eq!(chip_status_text(ChipStatus::Ended), Some("ended"));
}

#[test]
fn rows_of_contacts_offer_calls() {
    let mut g = groups();
    g.client_status(node(2), Availability::Online, Vec::new());
    let row = friend_row(&contacts(), 0, &g, &desk());
    assert_eq!(row.name, "maya");
    assert_eq!(row.peer, Some(node(2)));
    assert_eq!(row.availability, Some(Availability::Online));
    assert!(row.call_enabled);
    let mut d = desk();
    d.set_call_state(node(2), CallState::Calling);
    assert!(!friend_row(&contacts(), 0, &g, &d).call_enabled);
    assert_eq!(availability_text(Availability::Online), "• Online");
    assert_eq!(availability_text(Availability::Offline), "• Offline");
}

#[test]
fn dialing_reads_what_was_typed() {
    assert_eq!(
        dial_status("", false, &contacts()),
        ("Enter a node ID to call".to_owned(), None)
    );
    for (text, pasted) in [("", true), (" ", false), ("nonsense", false)] {
        let (text, peer) = dial_status(text, pasted, &contacts());
        assert!(text.starts_with("Invalid ID: "));
        assert_eq!(peer, None);
    }
    assert_eq!(
        dial_status(&format!(" {} ", node(2).to_text()), false, &contacts()),
        ("Ready to call maya".to_owned(), Some(node(2)))
    );
    assert_eq!(
        dial_status(&node(3).to_text(), true, &contacts()),
        ("Valid node ID".to_owned(), Some(node(3)))
    );
}

#[test]
fn states_have_their_texts() {
    assert_eq!(sharing_note(false, false), None);
    assert_eq!(sharing_note(true, true), Some("· sharing audio"));
    assert_eq!(sharing_note(true, false), Some("· sharing"));
    assert_eq!(idle_status(true, true, true), "Sharing screen + audio");
    assert_eq!(idle_status(true, false, true), "Sharing screen");
    assert_eq!(idle_status(false, false, true), "Ready");
    assert_eq!(idle_status(false, false, false), "Connecting…");
    assert_eq!(chat_status(true, true), "Chat unavailable");
    assert_eq!(chat_status(false, true), "Chat ready");
    assert_eq!(chat_status(false, false), "Connecting…");
    assert_eq!(
        share_tip(true, true, true),
        "Stop sharing your screen and computer sound"
    );
    assert_eq!(
        share_tip(false, false, false),
        "Join a call before sharing your screen"
    );
    assert_eq!(
        answer_texts(true),
        ("End & accept", "Leave the group call and answer this call")
    );
    assert_eq!(answer_texts(false), ("Accept", "Answer this call"));
    assert_eq!(
        group_call_button(false, true),
        ("Join call", "Join the active group call")
    );
    assert_eq!(
        group_call_button(false, false),
        ("Start call", "Ring group members who are currently online")
    );
    assert_eq!(group_call_button(true, true).0, "Open call");
    assert_eq!(
        group_summary(&None, false, "You, Maya".to_owned()),
        "You, Maya"
    );
    assert_eq!(
        group_summary(&None, true, "You, Maya".to_owned()),
        "Missed group call"
    );
    assert_eq!(
        group_summary(&Some(call("c", "group", 1, None)), true, String::new()),
        "● Active call · 1 participant"
    );
    assert_eq!(stage_detail(0, true).as_deref(), Some("starting share…"));
    assert_eq!(stage_detail(2, true).as_deref(), Some("2 streams"));
    assert_eq!(stage_detail(0, false), None);
}

// ---------------------------------------------------------------------------
// Presence
// ---------------------------------------------------------------------------

#[test]
fn each_fault_of_a_packet_is_named() {
    let mut packet = StatusPacket::new(Availability::Online, Vec::new());
    assert_eq!(packet.protocol_version, 2);
    assert_eq!(packet.client_version, APP_VERSION);
    assert_eq!(packet.validate(), Ok(()));
    packet.protocol_version = 3;
    assert_eq!(packet.validate(), Err(StatusError::UnsupportedVersion(3)));
    packet.protocol_version = 2;
    packet.client_version = "x".repeat(65);
    assert_eq!(packet.validate(), Err(StatusError::VersionTooLong));
    packet.client_version = "x".repeat(64);
    packet.active_group_calls = (0..33)
        .map(|_| call("c", "group", 1, None))
        .collect();
    assert_eq!(packet.validate(), Err(StatusError::CallsTooLarge));
    assert_eq!(
        StatusError::UnsupportedVersion(3).reason(),
        "unsupported client status protocol version 3"
    );
    assert_eq!(
        StatusError::VersionTooLong.reason(),
        "client version exceeds safety limit"
    );
    assert_eq!(
        StatusError::CallsTooLarge.reason(),
        "group call advertisement exceeds safety limit"
    );
}

#[test]
fn presence_is_withdrawn_after_three_failures() {
    let mut protocol = ClientStatusProtocol::new();
    protocol.replace_peers(&vec![node(2)]);
    assert!(protocol.peer_is_allowed(&node(2)));
    assert!(!protocol.peer_is_allowed(&node(3)));
    for _ in 0..2 {
        let generation = protocol.announce_online(node(2));
        assert!(protocol.probe_failed(node(2), generation).is_none());
    }
    let generation = protocol.announce_online(node(2));
    let update = protocol.probe_failed(node(2), generation).unwrap();
    assert_eq!(update.availability, Availability::Offline);
    let generation = protocol.announce_online(node(2));
    let update = protocol
        .probe_succeeded(
            node(2),
            generation,
            StatusPacket::new(Availability::Online, Vec::new()),
        )
        .unwrap();
    assert_eq!(update.availability, Availability::Online);
    assert_eq!(protocol.peers(), vec![node(2)]);
}

#[test]
fn a_packet_is_answered_with_our_calls() {
    let mut protocol = ClientStatusProtocol::new();
    protocol.set_active_group_calls(vec![
        call("live", "group", 1, None),
        call("gone", "group", 1, Some(1)),
    ]);
    let now = 3 * 86_400_000;
    let packet = StatusPacket::new(Availability::Online, Vec::new());
    let (update, answer) = protocol.accept(node(2), packet, now).unwrap();
    assert_eq!(update.peer, node(2));
    assert_eq!(answer.active_group_calls.len(), 1);
    assert_eq!(answer.active_group_calls[0].call_id, "live");
    assert_eq!(protocol.active_group_calls(now).len(), 1);
    let mut bad = StatusPacket::new(Availability::Online, Vec::new());
    bad.protocol_version = 0;
    assert!(matches!(
        protocol.accept(node(2), bad, now),
        Err(StatusError::UnsupportedVersion(0))
    ));
}

#[test]
fn the_focus_shows_one_stream_alone() {
    let mut d = desk();
    let alone = |d: &CallDesk| -> Vec<NodeId> {
        d.shown_sources()
            .iter()
            .map(|source| match source {
                StreamSource::Remote(node) => *node,
                StreamSource::Local => panic!("nothing is shared"),
            })
            .collect()
    };
    for seed in [2, 3] {
        d.set_call_state(node(seed), CallState::Active);
        d.video_stream_accepted(node(seed), 1);
        assert!(d.video_frame(node(seed), 1, shape(9)));
    }
    assert_eq!(d.shown_sources().len(), 2);
    d.toggle_focus(StreamSource::Remote(node(3)));
    assert_eq!(alone(&d), vec![node(3)]);
    d.toggle_focus(StreamSource::Remote(node(2)));
    assert_eq!(alone(&d), vec![node(2)]);
    d.toggle_focus(StreamSource::Remote(node(2)));
    assert!(d.focused.is_none());
    assert_eq!(d.shown_sources().len(), 2);
    // A stream that cannot be shown hides no other.
    d.toggle_focus(StreamSource::Local);
    assert_eq!(alone(&d).len(), 2);
}

#[test]
fn a_name_of_one_character_is_kept() {
    let nothing_fits = |name: &str| fit_stream_info_badges(name, None, false, |_: &str| false);
    assert_eq!(nothing_fits("A"), ["A"]);
    assert_eq!(nothing_fits("Ada"), ["\u{2026}"]);
    assert_eq!(nothing_fits(""), [""]);
}
