//! The panels and dialogs around chats and calls.
use wire_app::calls::{CallDesk, CallState, Command};
use wire_app::client_status::{Availability, GroupCallAnnouncement};
use wire_app::contacts::{Contacts, Friend};
use wire_app::conversation::{ChatConversation, ConversationKind};
use wire_app::group_calls::GroupCalls;
use wire_app::node::NodeId;
use wire_app::panels::{
    chat_header, column_targets, column_texts, dropped_name, enter_sends, file_image_name,
    header_texts, in_call, message_hint, microphone_tip, participant_rows, pasted_name,
    target_title, toggle_sharing, FriendDialog, GroupCreation, GroupEditor, HeaderButton,
    SharePress, TargetKind,
};
use wire_app::table::Table;

fn node(seed: u8) -> NodeId {
    NodeId::from_bytes(*iroh::SecretKey::from_bytes(&[seed; 32]).public().as_bytes())
}

fn contacts() -> Contacts {
    Contacts {
        friends: vec![Friend {
            name: "maya".to_owned(),
            node_id: node(2).to_text(),
        }],
    }
}

fn conversation(kind: ConversationKind) -> ChatConversation {
    ChatConversation {
        id: "group".to_owned(),
        title: "friends".to_owned(),
        kind,
        members: vec![node(1).to_text(), node(2).to_text()],
        document_id: "doc".to_owned(),
        history_epoch: 0,
    }
}

fn call() -> GroupCallAnnouncement {
    GroupCallAnnouncement {
        call_id: "call".to_owned(),
        conversation_id: "group".to_owned(),
        title: "friends".to_owned(),
        initiator: node(2).to_text(),
        started_at_ms: 1,
        ended_at_ms: None,
        participants: vec![node(2).to_text()],
    }
}

#[test]
fn the_header_offers_what_the_conversation_allows() {
    let mut groups = GroupCalls::load(&Table::new(), 0);
    let direct = |seed| {
        conversation(ConversationKind::Direct {
            peer_id: node(seed).to_text(),
        })
    };
    let header = chat_header(&direct(2), &contacts(), &groups, &Some(node(1)), true);
    assert_eq!(header.title, "maya");
    assert_eq!(header.initial, "M");
    assert_eq!(header.subtitle, "Direct message");
    assert_eq!(header.button, HeaderButton::StartCall);
    assert!(!header.members);
    let header = chat_header(&direct(3), &contacts(), &groups, &Some(node(1)), true);
    assert_eq!(header.button, HeaderButton::AddFriend);
    assert!(!header.menu_adds_friend);
    let header = chat_header(&direct(3), &contacts(), &groups, &Some(node(1)), false);
    assert_eq!(header.button, HeaderButton::Nothing);
    assert!(header.menu_adds_friend);
    let group = conversation(ConversationKind::Group);
    let header = chat_header(&group, &contacts(), &groups, &Some(node(1)), true);
    assert_eq!(header.subtitle, "You, maya");
    assert_eq!(header.initial, "F");
    assert_eq!(header.button, HeaderButton::StartGroupCall);
    groups.client_status(node(2), Availability::Online, vec![call()]);
    let header = chat_header(&group, &contacts(), &groups, &Some(node(1)), true);
    assert_eq!(header.button, HeaderButton::JoinGroupCall);
    groups.local = Some(call());
    let header = chat_header(&group, &contacts(), &groups, &Some(node(1)), true);
    assert_eq!(header.button, HeaderButton::OpenGroupCall);
    assert_eq!(
        header_texts(HeaderButton::AddFriend, false),
        Some(("Add friend", "Save this sender using their full node ID"))
    );
    assert_eq!(header_texts(HeaderButton::Nothing, false), None);
    assert_eq!(
        header_texts(HeaderButton::OpenGroupCall, true),
        Some(("Open call", "Join the active group call"))
    );
    groups.forget_status(&node(2));
    assert!(!groups.status.has(&node(2)));
}

#[test]
fn the_composer_has_its_hints() {
    assert_eq!(message_hint("maya"), "Message maya");
    assert!(enter_sends(true, true, false));
    assert!(!enter_sends(true, true, true));
    assert_eq!(dropped_name(String::new()), "dropped-image");
    assert_eq!(dropped_name("a.png".to_owned()), "a.png");
    assert_eq!(pasted_name(12), "pasted-12.png");
    assert_eq!(pasted_name(-12), "pasted--12.png");
    assert_eq!(file_image_name(None), "image");
}

#[test]
fn a_group_is_made_from_a_name_and_members() {
    let mut editor = GroupEditor {
        shown: true,
        name: " ".to_owned(),
        members: Table::new(),
    };
    editor.choose_member(node(2), true);
    match editor.create() {
        GroupCreation::Incomplete(text) => assert_eq!(
            text,
            "Give the group a name and choose at least one friend."
        ),
        other => panic!("{other:?}"),
    }
    assert!(editor.shown);
    editor.name = " Plans ".to_owned();
    match editor.create() {
        GroupCreation::Create(title, peers) => {
            assert_eq!(title, "Plans");
            assert_eq!(peers, vec![node(2)]);
        }
        other => panic!("{other:?}"),
    }
    assert!(!editor.shown);
    assert_eq!(editor.members.len(), 0);
    editor.shown = true;
    editor.choose_member(node(2), true);
    editor.choose_member(node(2), false);
    assert_eq!(editor.members.len(), 0);
    editor.leave(false, true);
    assert!(editor.shown);
    editor.leave(true, true);
    assert!(!editor.shown);
}

#[test]
fn a_sender_becomes_a_contact() {
    let mut c = contacts();
    let mut dialog = FriendDialog {
        peer: None,
        name: String::new(),
    };
    assert!(!dialog.finish(&mut c, true, false, true));
    dialog.begin(node(3));
    assert!(!dialog.finish(&mut c, false, false, true));
    assert_eq!(dialog.peer, Some(node(3)));
    assert!(dialog.finish(&mut c, true, false, true));
    assert_eq!(dialog.peer, None);
    assert_eq!(c.friends[0].name, format!("Peer {}", node(3).fmt_short()));
    dialog.begin(node(3));
    assert!(!dialog.finish(&mut c, true, false, true));
    dialog.begin(node(4));
    assert!(!dialog.finish(&mut c, false, true, true));
    assert_eq!(c.friends.len(), 2);
}

#[test]
fn a_screen_can_be_shared_in_a_call() {
    let mut desk = CallDesk::new(true, false, false);
    let mut groups = GroupCalls::load(&Table::new(), 0);
    assert!(!in_call(&desk, &groups));
    groups.local = Some(call());
    assert!(in_call(&desk, &groups));
    groups.local = None;
    desk.set_call_state(node(2), CallState::Active);
    assert!(in_call(&desk, &groups));
    assert!(matches!(toggle_sharing(false), SharePress::Pick));
    assert!(matches!(
        toggle_sharing(true),
        SharePress::Stop(_, Command::ToggleSharing { enabled: false, .. })
    ));
    let listed = desk.targets_listed(Err("denied".to_owned()));
    assert!(!listed.shown);
    assert_eq!(
        listed.card.unwrap().title,
        "Could not list screens and windows"
    );
    assert_eq!(desk.capture_error.as_deref(), Some("denied"));
    let listed = desk.targets_listed(Ok(vec![false, true]));
    assert!(listed.shown);
    assert_eq!(listed.selected, Some(1));
    assert_eq!(desk.capture_error, None);
}

#[test]
fn the_picker_has_a_column_for_each_kind() {
    let kinds = vec![TargetKind::Window, TargetKind::Display, TargetKind::Window];
    assert_eq!(column_targets(&kinds, TargetKind::Window), vec![0, 2]);
    assert_eq!(column_targets(&kinds, TargetKind::Display), vec![1]);
    assert_eq!(
        column_texts(TargetKind::Display),
        ("Screens", "No screens available")
    );
    assert_eq!(target_title(&"x".repeat(60), 100).chars().count(), 48);
    assert_eq!(target_title(&"x".repeat(60), 0).chars().count(), 12);
    assert_eq!(target_title("short", 20), "short");
}

#[test]
fn participants_stand_in_rows() {
    assert_eq!(participant_rows(0, 3), vec![(0, 1)]);
    assert_eq!(participant_rows(2, 3), vec![(0, 3)]);
    assert_eq!(participant_rows(6, 3), vec![(0, 3), (3, 6), (6, 7)]);
    assert_eq!(microphone_tip(true), "Microphone muted");
    assert_eq!(microphone_tip(false), "Your microphone level");
}
