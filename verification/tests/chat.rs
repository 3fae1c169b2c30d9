//! Messages, conversations, invitations and their delivery.
use sha2::Digest;
use wire_app::clock::{mix_nonce, now_millis, to_stamp, NonceSource};
use wire_app::conversation::{
    check_group, direct_conversation_id, other_members, plan_direct, plan_group, plan_rotation, sorted_members,
    sync_peers, ChatConversation, ConversationKind, GroupError, StoredConversation,
};
use wire_app::delivery::{
    conversations_to_resume, delivery_retry_delay, ChatNotification, Deliveries, DeliveryState,
    FIRST_RETRY_MS,
};
use wire_app::framing::{
    frame, frame_length, is_acknowledgement, PacketRule, MAX_CHAT_PACKET, MAX_STATUS_PACKET,
};
use wire_app::inputs::{
    load_delivered_message_ids, migrates_deletion, needs_body, open_failure_text, session_event,
    session_opened, ChatInput, InputStep, ReceiptEntry, SessionEvent, SyncRequest, Task,
};
use wire_app::invite::{accept_invite, ChatInvite, InviteError, InviteOutcome};
use wire_app::message::{
    is_message_id, ChatMessage, MessageDeletion, MessageError, RetentionPolicy, MAX_MESSAGE_BYTES,
};
use wire_app::node::NodeId;
use wire_app::records::{
    log_id, receipt_message_id_from_key, ReplicatedDeletion, ReplicatedReceipt,
};
use wire_app::service::{
    document_change, ChatService, DeletionError, DocumentEvent, SendError, SyncVerdict,
};
use wire_app::sessions::{any_reached, begin_send, next_send, SendStep, SessionPool, StepOutcome};
use wire_app::table::Table;
use wire_app::text::Relation;
use wire_app::timeline::{load_messages, sort_messages, DeletionEntry, MessageEntry};

fn node(seed: u8) -> NodeId {
    NodeId::from_bytes(*iroh::SecretKey::from_bytes(&[seed; 32]).public().as_bytes())
}

fn id_of(digit: char) -> String {
    digit.to_string().repeat(64)
}

fn message(seed: u8, digit: char, sent_at: i64) -> ChatMessage {
    ChatMessage {
        version: 1,
        message_id: id_of(digit),
        author_id: node(seed).to_text(),
        sent_at,
        body: "hello".to_owned(),
        nonce: 0,
        client_version: None,
        attachments: Vec::new(),
        deletion: None,
    }
}

fn direct(epoch: u64, document: &str) -> ChatConversation {
    ChatConversation {
        id: direct_conversation_id(node(1), node(2)),
        title: "Maya".to_owned(),
        kind: ConversationKind::Direct {
            peer_id: node(1).to_text(),
        },
        members: sorted_members(&vec![node(1), node(2)]),
        document_id: document.to_owned(),
        history_epoch: epoch,
    }
}

fn stored(epoch: u64, document: &str) -> StoredConversation {
    StoredConversation {
        public: direct(epoch, document),
        ticket: "ticket".to_owned(),
    }
}

fn service() -> ChatService {
    let mut index = Table::new();
    let conversation = stored(0, "doc");
    index.insert(conversation.public.id.clone(), conversation);
    ChatService::new(node(1), index, Table::new())
}

fn texts(service: &mut ChatService) -> Vec<String> {
    let mut texts = Vec::new();
    while let Some(note) = service.deliveries.pop_notification() {
        match note {
            ChatNotification::Error(text) => texts.push(text),
            other => panic!("{other:?}"),
        }
    }
    texts
}

fn states(deliveries: &mut Deliveries) -> Vec<(DeliveryState, Option<String>)> {
    let mut states = Vec::new();
    while let Some(note) = deliveries.pop_notification() {
        if let ChatNotification::Delivery { state, detail, .. } = note {
            states.push((state, detail));
        }
    }
    states
}

// ---------------------------------------------------------------------------
// Keys and messages
// ---------------------------------------------------------------------------

#[test]
fn a_key_is_read_back_from_its_text() {
    let key = node(7);
    assert_eq!(
        key.to_text(),
        iroh::SecretKey::from_bytes(&[7; 32]).public().to_string()
    );
    assert_eq!(NodeId::parse(&key.to_text()).unwrap(), key);
    assert!(NodeId::parse("not-a-node-id").is_err());
    assert!(NodeId::parse("").is_err());
    assert!(NodeId::parse(&key.to_text().to_uppercase()).is_err());
    assert!(key.same(&node(7)));
    assert!(!key.same(&node(8)));
}

#[test]
fn a_key_has_the_short_form_of_its_crate() {
    let key = iroh::SecretKey::from_bytes(&[7; 32]).public();
    assert_eq!(node(7).fmt_short(), key.fmt_short().to_string());
}

#[test]
fn the_message_id_is_the_digest_of_what_was_written() {
    let author = node(1);
    let m = ChatMessage::compose(author, "hello".to_owned(), Vec::new(), 1_234, 5);
    let mut input = Vec::new();
    input.extend_from_slice(&author.to_bytes());
    input.extend_from_slice(&1_234i64.to_be_bytes());
    input.extend_from_slice(&5u64.to_be_bytes());
    input.extend_from_slice(b"hello");
    let digest = sha2::Sha256::digest(&input);
    let hex: String = digest.iter().map(|byte| format!("{byte:02x}")).collect();
    assert_eq!(m.message_id, hex);
    assert!(is_message_id(&m.message_id));
}

#[test]
fn the_entry_key_holds_time_author_and_nonce() {
    let m = ChatMessage::compose(node(1), "hello".to_owned(), Vec::new(), 1_234, 0xabc);
    assert_eq!(
        m.entry_key(),
        format!("message/{:020}/{}/{:016x}", 1_234, node(1).to_text(), 0xabc)
    );
}

#[test]
fn earlier_messages_have_lesser_keys() {
    let early = ChatMessage::compose(node(1), "a".to_owned(), Vec::new(), 999, 7);
    let late = ChatMessage::compose(node(2), "b".to_owned(), Vec::new(), 1_000, 3);
    assert!(early.entry_key() < late.entry_key());
    assert_eq!(early.relate(&late), Relation::Before);
    assert_eq!(late.relate(&early), Relation::After);
    assert_eq!(late.relate(&late), Relation::Same);
}

#[test]
fn each_fault_of_a_message_is_named() {
    let mut m = message(1, 'a', 1);
    assert_eq!(m.validate(), Ok(()));
    m.version = 2;
    assert_eq!(m.validate(), Err(MessageError::UnsupportedVersion(2)));
    m.version = 1;
    m.body = " \n\u{3000}".to_owned();
    assert_eq!(m.validate(), Err(MessageError::Empty));
    m.body = "x".repeat(MAX_MESSAGE_BYTES + 1);
    assert_eq!(m.validate(), Err(MessageError::TooLarge));
    m.body = "x".repeat(MAX_MESSAGE_BYTES);
    assert_eq!(m.validate(), Ok(()));
    m.message_id = id_of('g');
    assert_eq!(m.validate(), Err(MessageError::IncompleteIdentity));
    m.message_id = id_of('a');
    m.author_id = String::new();
    assert_eq!(m.validate(), Err(MessageError::IncompleteIdentity));
    assert_eq!(
        MessageError::UnsupportedVersion(3).reason("message"),
        "unsupported message version 3"
    );
    assert_eq!(MessageError::Empty.reason("message"), "message is empty");
    assert_eq!(
        MessageError::TooLarge.reason("message"),
        "message is larger than the 1 MiB safety cap"
    );
    assert_eq!(
        MessageError::IncompleteIdentity.reason("message"),
        "message identity is incomplete"
    );
    assert_eq!(
        MessageError::InvalidMessageId.reason("receipt"),
        "receipt has an invalid message id"
    );
}

#[test]
fn the_safety_cap_counts_bytes() {
    let mut m = message(1, 'a', 1);
    m.body = "é".repeat(MAX_MESSAGE_BYTES / 2 + 1);
    assert_eq!(m.validate(), Err(MessageError::TooLarge));
}

#[test]
fn retention_has_labels_and_exact_limits() {
    assert_eq!(RetentionPolicy::Unlimited.label(), "Unlimited");
    assert_eq!(RetentionPolicy::Days(30).label(), "Last 30 days");
    let day = 24 * 60 * 60 * 1000;
    assert!(RetentionPolicy::Days(1).includes(day, 2 * day));
    assert!(!RetentionPolicy::Days(1).includes(day - 1, 2 * day));
    assert!(RetentionPolicy::Days(90).includes(0, 90 * day));
    assert!(RetentionPolicy::Days(u32::MAX).includes(i64::MIN, i64::MIN));
}

#[test]
fn nonces_of_one_source_differ() {
    let mut nonces = NonceSource::new();
    let first = nonces.next_nonce();
    let second = nonces.next_nonce();
    assert_ne!(first, second);
}

#[test]
fn stamps_are_milliseconds_of_this_century() {
    let stamp = now_millis();
    assert!(stamp > 1_600_000_000_000);
    assert!(stamp < 10_000_000_000_000);
    assert_eq!(to_stamp(None), 0);
    assert_eq!(to_stamp(Some(17)), 17);
    assert_eq!(to_stamp(Some(u128::MAX)), i64::MAX);
}

// ---------------------------------------------------------------------------
// Records
// ---------------------------------------------------------------------------

#[test]
fn records_are_stored_under_their_message() {
    let receipt = ReplicatedReceipt::new(id_of('c'));
    assert_eq!(receipt.entry_key(), format!("receipt/{}", id_of('c')));
    assert_eq!(receipt.validate(), Ok(()));
    let deletion = ReplicatedDeletion::new(id_of('d'));
    assert_eq!(deletion.entry_key(), format!("deletion/{}", id_of('d')));
    assert_eq!(deletion.validate(), Ok(()));
    assert_eq!(
        ReplicatedReceipt::new("short".to_owned()).validate(),
        Err(MessageError::InvalidMessageId)
    );
    let old = ReplicatedDeletion {
        version: 9,
        message_id: id_of('d'),
        deleted_at: 1,
    };
    assert_eq!(old.validate(), Err(MessageError::UnsupportedVersion(9)));
}

#[test]
fn the_key_of_a_receipt_names_its_message() {
    let key = ReplicatedReceipt::new(id_of('4')).entry_key();
    assert_eq!(
        receipt_message_id_from_key(key.as_bytes()),
        Some(id_of('4'))
    );
    assert_eq!(receipt_message_id_from_key(b"receipt/short"), None);
    assert_eq!(
        receipt_message_id_from_key(format!("deletion{}", id_of('4')).as_bytes()),
        None
    );
    assert_eq!(
        receipt_message_id_from_key(format!("receipt/{}", id_of('Z')).as_bytes()),
        None
    );
}

#[test]
fn logged_ids_are_cut_at_a_boundary() {
    assert_eq!(log_id("short"), "short");
    assert_eq!(log_id(&id_of('a')), "a".repeat(24));
    let odd = format!("{}é", "a".repeat(23));
    assert_eq!(log_id(&odd), odd);
}

fn receipt(ours: bool, key: String, len: u64, body: Option<ReplicatedReceipt>) -> ReceiptEntry {
    ReceiptEntry {
        ours,
        key: key.into_bytes(),
        content_len: len,
        body,
    }
}

#[test]
fn receipts_count_by_their_key_alone() {
    let entries = vec![
        receipt(false, format!("receipt/{}", id_of('1')), 0, None),
        receipt(true, format!("receipt/{}", id_of('2')), 0, None),
        receipt(
            false,
            "receipt/odd".to_owned(),
            100,
            Some(ReplicatedReceipt::new(id_of('3'))),
        ),
        receipt(
            false,
            "receipt/odd".to_owned(),
            16 * 1024 + 1,
            Some(ReplicatedReceipt::new(id_of('4'))),
        ),
        receipt(false, "receipt/odd".to_owned(), 100, None),
        receipt(
            false,
            "receipt/odd".to_owned(),
            100,
            Some(ReplicatedReceipt::new("short".to_owned())),
        ),
    ];
    let delivered = load_delivered_message_ids(&entries);
    assert_eq!(delivered.len(), 2);
    assert!(delivered.has(&id_of('1')));
    assert!(delivered.has(&id_of('3')));
    assert!(!needs_body(false, &entries[0].key, 100));
    assert!(!needs_body(true, &entries[2].key, 100));
    assert!(needs_body(false, &entries[2].key, 100));
    assert!(!needs_body(false, &entries[2].key, 0));
}

// ---------------------------------------------------------------------------
// Timelines
// ---------------------------------------------------------------------------

fn entry(m: ChatMessage, author: &str) -> MessageEntry {
    MessageEntry {
        message: m,
        author: author.to_owned(),
    }
}

#[test]
fn the_timeline_is_ordered_and_only_authors_delete() {
    let entries = vec![
        entry(message(1, 'b', 20), "alice"),
        entry(message(2, 'a', 10), "bob"),
        entry(message(2, 'c', 30), "bob"),
        entry(message(1, 'b', 20), "mallory"),
        entry(message(1, 'g', 5), "alice"),
    ];
    let deletions = vec![
        DeletionEntry {
            deletion: ReplicatedDeletion::new(id_of('b')),
            author: "alice".to_owned(),
        },
        DeletionEntry {
            deletion: ReplicatedDeletion::new(id_of('c')),
            author: "mallory".to_owned(),
        },
    ];
    let mut hidden = Table::new();
    hidden.insert(id_of('a'), ());
    let list = load_messages(&entries, &deletions, &hidden);
    let shown: Vec<(String, Option<MessageDeletion>)> = list
        .iter()
        .map(|m| (m.message_id.clone(), m.deletion))
        .collect();
    assert_eq!(
        shown,
        vec![
            (id_of('a'), Some(MessageDeletion::Local)),
            (id_of('b'), Some(MessageDeletion::Everyone)),
            (id_of('c'), None),
        ]
    );
}

#[test]
fn messages_are_sorted_by_time_first() {
    let sorted = sort_messages(vec![
        message(1, 'c', 3),
        message(1, 'a', 1),
        message(1, 'b', 2),
    ]);
    let times: Vec<i64> = sorted.iter().map(|m| m.sent_at).collect();
    assert_eq!(times, vec![1, 2, 3]);
}

#[test]
fn deletions_for_everyone_move_along() {
    let mut m = message(1, 'a', 1);
    assert!(!migrates_deletion(&m));
    m.deletion = Some(MessageDeletion::Local);
    assert!(!migrates_deletion(&m));
    m.deletion = Some(MessageDeletion::Everyone);
    assert!(migrates_deletion(&m));
}

// ---------------------------------------------------------------------------
// Conversations
// ---------------------------------------------------------------------------

#[test]
fn members_are_sorted_and_listed_once() {
    let members = sorted_members(&vec![node(2), node(1), node(2)]);
    let mut expected = vec![node(1).to_text(), node(2).to_text()];
    expected.sort();
    assert_eq!(members, expected);
    assert_eq!(other_members(&members, &node(1)), vec![node(2)]);
}

#[test]
fn synchronisation_goes_to_the_ticket_first() {
    let members = vec![node(1).to_text(), node(2).to_text(), node(3).to_text()];
    assert_eq!(
        sync_peers(&vec![node(3), node(1)], &members, &node(1)),
        vec![node(3), node(2)]
    );
}

#[test]
fn a_direct_conversation_is_with_the_peer() {
    let plan = plan_direct(node(1), node(2), "Maya".to_owned());
    assert_eq!(plan.id, direct_conversation_id(node(1), node(2)));
    assert_eq!(
        plan.kind,
        ConversationKind::Direct {
            peer_id: node(2).to_text()
        }
    );
    assert_eq!(plan.history_epoch, 0);
    assert_ne!(
        direct_conversation_id(node(1), node(2)),
        direct_conversation_id(node(1), node(3))
    );
    let kept = plan.with_document("doc".to_owned(), "ticket".to_owned());
    assert_eq!(kept.public.direct_peer(), Some(node(2)));
    assert_eq!(kept.public.document_id, "doc");
    assert_eq!(kept.ticket, "ticket");
}

#[test]
fn a_group_needs_a_name_and_another_member() {
    assert_eq!(
        plan_group("  ", &vec![node(2)], node(1), 5, 6).unwrap_err(),
        GroupError::EmptyName
    );
    assert_eq!(
        plan_group("Friends", &vec![node(1)], node(1), 5, 6).unwrap_err(),
        GroupError::NoOtherMember
    );
    let plan = plan_group(" Friends ", &vec![node(2)], node(1), 5, 6).unwrap();
    assert_eq!(plan.title, "Friends");
    assert_eq!(
        plan.id,
        format!("group/{}/{:020}/{:016x}", node(1).to_text(), 5, 6)
    );
    assert_eq!(GroupError::EmptyName.reason(), "group name is empty");
    assert_eq!(
        GroupError::NoOtherMember.reason(),
        "choose at least one other group member"
    );
    let long = plan_group(&"x".repeat(200), &vec![node(2)], node(1), 5, 6).unwrap();
    assert_eq!(long.title.chars().count(), 128);
}

#[test]
fn rotation_raises_the_epoch_and_keeps_the_rest() {
    let plan = plan_rotation(&stored(4, "doc"));
    assert_eq!(plan.history_epoch, 5);
    assert_eq!(plan.id, direct(4, "doc").id);
    assert_eq!(plan.members, direct(4, "doc").members);
    assert_eq!(plan_rotation(&stored(u64::MAX, "doc")).history_epoch, u64::MAX);
}

// ---------------------------------------------------------------------------
// Invitations
// ---------------------------------------------------------------------------

fn invite(epoch: u64, document: &str) -> ChatInvite {
    ChatInvite {
        version: 1,
        conversation: direct(epoch, document),
        ticket: "invited".to_owned(),
    }
}

fn judge(
    invite: ChatInvite,
    reads: bool,
    current: Option<&StoredConversation>,
) -> Result<InviteOutcome, InviteError> {
    accept_invite(&node(1), &node(2), invite, reads, current)
}

#[test]
fn each_fault_of_an_invitation_is_named() {
    let mut old = invite(0, "doc");
    old.version = 2;
    assert_eq!(
        judge(old, true, None).unwrap_err(),
        InviteError::UnsupportedVersion(2)
    );
    let mut long = invite(0, "doc");
    long.conversation.title = "x".repeat(513);
    assert_eq!(
        judge(long, true, None).unwrap_err(),
        InviteError::ExceedsLimits
    );
    let mut strangers = invite(0, "doc");
    strangers.conversation.members = vec![node(3).to_text(), node(2).to_text()];
    assert_eq!(
        judge(strangers, true, None).unwrap_err(),
        InviteError::MembershipMismatch
    );
    let mut crowd = invite(0, "doc");
    crowd.conversation.members.push(node(3).to_text());
    assert_eq!(
        judge(crowd, true, None).unwrap_err(),
        InviteError::InconsistentDirect
    );
    assert_eq!(
        judge(invite(0, "doc"), false, None).unwrap_err(),
        InviteError::InvalidTicket
    );
    assert_eq!(
        InviteError::UnsupportedVersion(2).reason(),
        "unsupported invitation version 2"
    );
    assert_eq!(
        InviteError::ExceedsLimits.reason(),
        "invitation metadata exceeds safety limits"
    );
    assert_eq!(
        InviteError::MembershipMismatch.reason(),
        "invitation membership does not match its sender and recipient"
    );
    assert_eq!(
        InviteError::InconsistentDirect.reason(),
        "direct-message invitation has inconsistent members"
    );
    assert_eq!(
        InviteError::InvalidTicket.reason(),
        "invalid document ticket"
    );
}

#[test]
fn a_first_invitation_is_adopted_from_our_side() {
    match judge(invite(0, "doc"), true, None).unwrap() {
        InviteOutcome::Adopt(adoption) => {
            assert_eq!(
                adoption.conversation.kind,
                ConversationKind::Direct {
                    peer_id: node(2).to_text()
                }
            );
            assert!(!adoption.history_reset);
            assert!(!adoption.migrate);
            assert_eq!(adoption.drop_document, None);
        }
        InviteOutcome::Ignore => panic!("ignored"),
    }
}

#[test]
fn both_sides_settle_on_the_same_replica() {
    let a = stored(0, "doc-a");
    let b = stored(0, "doc-b");
    match judge(invite(0, "doc-a"), true, Some(&b)).unwrap() {
        InviteOutcome::Adopt(adoption) => {
            assert!(adoption.migrate);
            assert_eq!(adoption.drop_document, Some("doc-b".to_owned()));
        }
        InviteOutcome::Ignore => panic!("ignored"),
    }
    assert!(matches!(
        judge(invite(0, "doc-b"), true, Some(&a)).unwrap(),
        InviteOutcome::Ignore
    ));
    assert!(matches!(
        judge(invite(0, "doc-a"), true, Some(&a)).unwrap(),
        InviteOutcome::Ignore
    ));
}

#[test]
fn a_cleared_history_wins_over_any_document() {
    match judge(invite(1, "doc-z"), true, Some(&stored(0, "doc-a"))).unwrap() {
        InviteOutcome::Adopt(adoption) => {
            assert!(adoption.history_reset);
            assert!(!adoption.migrate);
            let mut ours = service();
            let id = adoption.conversation.id.clone();
            assert!(ours.delete_message_locally(&id, &id_of('a')).unwrap());
            assert!(ours.adopt(adoption));
            assert_eq!(ours.hidden_messages(&id).len(), 0);
            assert_eq!(ours.index.get(&id).unwrap().public.document_id, "doc-z");
        }
        InviteOutcome::Ignore => panic!("ignored"),
    }
    assert!(matches!(
        judge(invite(0, "doc-a"), true, Some(&stored(1, "doc-z"))).unwrap(),
        InviteOutcome::Ignore
    ));
}

// ---------------------------------------------------------------------------
// The service
// ---------------------------------------------------------------------------

#[test]
fn restoring_undoes_deleting_on_this_device() {
    let mut chat = service();
    let id = direct_conversation_id(node(1), node(2));
    assert_eq!(
        chat.delete_message_locally("unknown", &id_of('a')),
        Err(DeletionError::UnknownConversation)
    );
    assert_eq!(
        chat.delete_message_locally(&id, "short"),
        Err(DeletionError::InvalidMessageId)
    );
    assert_eq!(
        chat.restore_message_locally(&id, &id_of('a')),
        Err(DeletionError::NotDeletedLocally)
    );
    assert_eq!(chat.delete_message_locally(&id, &id_of('a')), Ok(true));
    assert_eq!(chat.delete_message_locally(&id, &id_of('a')), Ok(false));
    assert!(chat.hidden_messages(&id).has(&id_of('a')));
    assert_eq!(chat.restore_message_locally(&id, &id_of('a')), Ok(()));
    assert_eq!(chat.hidden_messages(&id).len(), 0);
    assert_eq!(chat.local_deletions.len(), 0);
    chat.undo_local_restore(&id, &id_of('a'));
    assert!(chat.hidden_messages(&id).has(&id_of('a')));
    chat.undo_local_deletion(&id, &id_of('a'), true);
    assert_eq!(chat.hidden_messages(&id).len(), 0);
    assert_eq!(
        DeletionError::NotDeletedLocally.reason(),
        "message is not deleted locally"
    );
    assert_eq!(
        DeletionError::UnknownConversation.reason(),
        "unknown conversation"
    );
    assert_eq!(
        DeletionError::InvalidMessageId.reason(),
        "invalid message id"
    );
}

#[test]
fn only_the_author_deletes_for_everyone() {
    let chat = service();
    let id = direct_conversation_id(node(1), node(2));
    let list = vec![message(2, 'b', 1), message(1, 'a', 2)];
    assert_eq!(
        chat.check_deletion_for_everyone(&id, &id_of('a'), &list),
        Ok(1)
    );
    assert_eq!(
        chat.check_deletion_for_everyone(&id, &id_of('b'), &list),
        Err(DeletionError::NotTheAuthor)
    );
    assert_eq!(
        chat.check_deletion_for_everyone(&id, &id_of('c'), &list),
        Err(DeletionError::MessageUnavailable)
    );
    assert_eq!(
        chat.check_deletion_for_everyone(&id, "short", &list),
        Err(DeletionError::InvalidMessageId)
    );
    assert_eq!(
        chat.check_deletion_for_everyone("unknown", &id_of('a'), &list),
        Err(DeletionError::UnknownConversation)
    );
    assert_eq!(
        DeletionError::MessageUnavailable.reason(),
        "message is no longer available"
    );
    assert_eq!(
        DeletionError::NotTheAuthor.reason(),
        "only the author can delete a message for everyone"
    );
}

#[test]
fn only_our_own_messages_are_sent() {
    let chat = service();
    let id = direct_conversation_id(node(1), node(2));
    assert_eq!(chat.check_message(&id, &message(1, 'a', 1)), Ok(()));
    assert_eq!(
        chat.check_message(&id, &message(2, 'a', 1)),
        Err(SendError::DifferentIdentity)
    );
    assert_eq!(
        chat.check_message("unknown", &message(1, 'a', 1)),
        Err(SendError::UnknownConversation)
    );
    assert_eq!(
        chat.check_message(&id, &message(1, 'g', 1)),
        Err(SendError::Invalid(MessageError::IncompleteIdentity))
    );
    assert_eq!(
        SendError::Invalid(MessageError::Empty).reason(),
        "message is empty"
    );
    assert_eq!(
        SendError::DifferentIdentity.reason(),
        "cannot send a message for a different Wire identity"
    );
    assert_eq!(
        SendError::UnknownConversation.reason(),
        "unknown conversation"
    );
}

#[test]
fn receipts_are_owed_for_messages_of_others() {
    let chat = service();
    let list = vec![message(1, 'a', 1), message(2, 'b', 2)];
    assert_eq!(chat.owed_receipts(&list), vec![id_of('b')]);
}

#[test]
fn requests_count_from_members_only() {
    let chat = service();
    let id = direct_conversation_id(node(1), node(2));
    assert_eq!(
        chat.judge_sync_request("sync-request", 1, &id, &node(2)),
        SyncVerdict::Pull
    );
    assert_eq!(
        chat.judge_sync_request("sync-request", 1, &id, &node(3)),
        SyncVerdict::NotAMember
    );
    assert_eq!(
        chat.judge_sync_request("sync-request", 2, &id, &node(2)),
        SyncVerdict::Unsupported
    );
    assert_eq!(
        chat.judge_sync_request("other", 1, &id, &node(2)),
        SyncVerdict::Unsupported
    );
}

#[test]
fn inputs_lead_to_their_steps() {
    let mut chat = service();
    let id = direct_conversation_id(node(1), node(2));
    chat.subscribed(&id, "doc");
    match chat.process_input(ChatInput::SyncRequest {
        remote: node(2),
        request: SyncRequest::new(id.clone()),
    }) {
        InputStep::Pull {
            remote,
            conversation_id,
        } => assert_eq!((remote, conversation_id), (node(2), id.clone())),
        _ => panic!("another step"),
    }
    let mut request = SyncRequest::new(id.clone());
    request.version = 7;
    match chat.process_input(ChatInput::SyncRequest {
        remote: node(2),
        request,
    }) {
        InputStep::Tell(text) => assert_eq!(text, "Unsupported chat sync request version 7"),
        _ => panic!("another step"),
    }
    assert!(matches!(
        chat.process_input(ChatInput::SyncRequest {
            remote: node(3),
            request: SyncRequest::new(id.clone()),
        }),
        InputStep::Nothing
    ));
    assert!(matches!(
        chat.process_input(ChatInput::SubscriptionEnded {
            conversation_id: id.clone(),
            document_id: "old".to_owned(),
        }),
        InputStep::Nothing
    ));
    assert!(!chat.needs_subscription(&id, "doc"));
    assert!(matches!(
        chat.process_input(ChatInput::SubscriptionEnded {
            conversation_id: id.clone(),
            document_id: "doc".to_owned(),
        }),
        InputStep::Reopen { .. }
    ));
    assert!(chat.needs_subscription(&id, "doc"));
    assert!(matches!(
        chat.process_input(ChatInput::Changed {
            conversation_id: id.clone(),
            from_remote: true,
        }),
        InputStep::Refresh { resume: true, .. }
    ));
    assert!(matches!(
        chat.process_input(ChatInput::WakeFinished {
            conversation_id: id.clone(),
            reached: false,
        }),
        InputStep::FinishWake { reached: false, .. }
    ));
    assert!(matches!(
        chat.process_input(ChatInput::Retry),
        InputStep::RetryDue
    ));
    assert!(matches!(
        chat.process_input(ChatInput::Invite {
            remote: node(2),
            invite: invite(0, "doc"),
        }),
        InputStep::Accept { .. }
    ));
}

#[test]
fn failures_are_told_with_their_reason() {
    assert_eq!(
        Task::AcceptInvite.failure_text("no"),
        "Chat invitation failed: no"
    );
    assert_eq!(Task::Refresh.failure_text("no"), "Could not refresh chat: no");
    assert_eq!(
        Task::Reopen.failure_text("no"),
        "Could not restore live chat updates: no"
    );
    assert_eq!(
        Task::ClearHistory.failure_text("no"),
        "Could not clear history: no"
    );
    assert_eq!(
        open_failure_text("dm/x", "no"),
        "Could not open chat dm/x: no"
    );
    let mut chat = service();
    chat.deliveries.message_deleted(Ok(()), Ok(()));
    chat.deliveries
        .message_deleted(Err("no".to_owned()), Err("hidden".to_owned()));
    chat.deliveries
        .message_deleted(Ok(()), Err("late".to_owned()));
    chat.deliveries
        .message_restored(Err("no".to_owned()), Ok(()));
    chat.deliveries
        .message_restored(Ok(()), Err("late".to_owned()));
    assert_eq!(
        texts(&mut chat),
        vec![
            "Could not delete message: no",
            "Could not refresh deleted message: late",
            "Could not restore message: no",
            "Could not refresh restored message: late",
        ]
    );
}

#[test]
fn document_events_tell_whether_a_peer_is_online() {
    assert_eq!(document_change(DocumentEvent::InsertLocal), Some(false));
    assert_eq!(document_change(DocumentEvent::InsertRemote), Some(true));
    assert_eq!(document_change(DocumentEvent::ContentReady), Some(false));
    assert_eq!(
        document_change(DocumentEvent::PendingContentReady),
        Some(false)
    );
    assert_eq!(document_change(DocumentEvent::SyncFinished), Some(true));
    assert_eq!(document_change(DocumentEvent::Other), None);
}

#[test]
fn clearing_forgets_what_was_kept_of_a_conversation() {
    let mut chat = service();
    let id = direct_conversation_id(node(1), node(2));
    chat.delete_message_locally(&id, &id_of('a')).unwrap();
    chat.deliveries.message_committed(&id, &id_of('b'), 0);
    chat.subscribed(&id, "doc");
    let plan = chat.plan_clear_history(&id).unwrap();
    assert_eq!(plan.history_epoch, 1);
    let fresh = plan.with_document("fresh".to_owned(), "new".to_owned());
    assert_eq!(
        chat.rotate_conversation_document(&id, fresh),
        Some(("doc".to_owned(), true))
    );
    assert!(!chat.deliveries.has_waiting(&id));
    assert!(chat.needs_subscription(&id, "doc"));
    assert_eq!(chat.index.get(&id).unwrap().public.document_id, "fresh");
    assert!(chat.plan_clear_history("unknown").is_none());
    // What counts is the key that the conversation is kept under.
    let plan = chat.plan_clear_history(&id).unwrap();
    let mut stored = plan.with_document("kept".to_owned(), "ticket".to_owned());
    stored.public.id = "other".to_owned();
    chat.index.insert("key".to_owned(), stored);
    let plan = chat.plan_clear_history("key").unwrap();
    let fresh = plan.with_document("newest".to_owned(), "ticket".to_owned());
    assert_eq!(
        chat.rotate_conversation_document("key", fresh),
        Some(("kept".to_owned(), false))
    );
    let stored = chat.index.get(&"key".to_owned()).unwrap();
    assert_eq!(stored.public.document_id, "newest");
    assert!(!chat.index.has(&"other".to_owned()));
}

#[test]
fn a_direct_conversation_is_made_once() {
    let chat = service();
    assert_eq!(
        chat.ensure_direct(node(2), "Maya".to_owned()).unwrap(),
        direct_conversation_id(node(1), node(2))
    );
    let plan = chat.ensure_direct(node(3), "Ada".to_owned()).unwrap_err();
    assert_eq!(plan.id, direct_conversation_id(node(1), node(3)));
    assert_eq!(chat.peers_of(&direct_conversation_id(node(1), node(2))), vec![node(2)]);
    assert!(chat.peers_of("unknown").is_empty());
    assert_eq!(
        chat.invitation(&direct_conversation_id(node(1), node(2)))
            .unwrap()
            .ticket,
        "ticket"
    );
    let mut nonces = NonceSource::new();
    let group = chat
        .create_group("Friends", &vec![node(2)], &mut nonces)
        .unwrap();
    assert!(group.id.starts_with(&format!("group/{}/", node(1).to_text())));
}

// ---------------------------------------------------------------------------
// Delivery
// ---------------------------------------------------------------------------

#[test]
fn delays_grow_to_their_bound() {
    assert_eq!(delivery_retry_delay("", 1), 401);
    assert_eq!(delivery_retry_delay("", 2), 702);
    assert_eq!(delivery_retry_delay("", 3), 1_003);
    assert_eq!(delivery_retry_delay("", 10), 1_510);
    assert_eq!(delivery_retry_delay("", 11), 3_011);
    assert_eq!(delivery_retry_delay("a", 1), 400 + (31 + 97) % 200);
    for attempts in [0u8, 1, 2, 3, 200, 255] {
        assert!(delivery_retry_delay("dm/x", attempts) <= 4_000);
    }
}

#[test]
fn a_sent_message_waits_for_its_receipt() {
    let mut d = Deliveries::new();
    d.message_committed("chat", &id_of('a'), 1_000);
    assert_eq!(
        states(&mut d),
        vec![(DeliveryState::Pending, Some("delivering".to_owned()))]
    );
    assert!(d.due(1_000).is_empty());
    assert_eq!(d.due(1_000 + FIRST_RETRY_MS), vec!["chat".to_owned()]);
    let mut delivered = Table::new();
    delivered.insert(id_of('a'), ());
    let mut list = vec![message(1, 'a', 1)];
    d.publish_timeline(direct(0, "doc"), list.clone(), &delivered, &node(1));
    assert!(!d.has_waiting("chat"));
    let mut again = Deliveries::new();
    let id = direct(0, "doc").id;
    again.message_committed(&id, &id_of('a'), 1_000);
    again.publish_timeline(direct(0, "doc"), std::mem::take(&mut list), &delivered, &node(1));
    assert!(!again.has_waiting(&id));
    assert_eq!(
        states(&mut again),
        vec![
            (DeliveryState::Pending, Some("delivering".to_owned())),
            (DeliveryState::Delivered, None),
        ]
    );
    assert!(again.due(u64::MAX).is_empty());
}

#[test]
fn a_refused_message_has_failed() {
    let mut d = Deliveries::new();
    d.message_refused(id_of('a'), "message is empty".to_owned());
    assert_eq!(
        states(&mut d),
        vec![(DeliveryState::Failed, Some("message is empty".to_owned()))]
    );
}

#[test]
fn one_lost_wake_parks_nothing_while_another_is_out() {
    let mut d = Deliveries::new();
    d.pending.insert(id_of('a'), "chat".to_owned());
    d.wake_started("chat");
    d.wake_started("chat");
    assert!(!d.apply_wake_finished("chat", false, 0));
    assert!(states(&mut d).is_empty());
    assert!(!d.apply_wake_finished("chat", false, 0));
    assert_eq!(
        states(&mut d),
        vec![(DeliveryState::Queued, Some("waiting for peer".to_owned()))]
    );
    assert!(d.apply_wake_finished("chat", true, 0));
    assert_eq!(
        states(&mut d),
        vec![(DeliveryState::Pending, Some("delivering".to_owned()))]
    );
}

#[test]
fn retries_are_counted_and_parked_when_nobody_is_there() {
    let mut d = Deliveries::new();
    d.message_committed("chat", &id_of('a'), 0);
    let ids = d.begin_retry("chat").unwrap();
    d.retry_reached("chat", &ids, 500);
    let told = states(&mut d);
    assert_eq!(
        told.last(),
        Some(&(
            DeliveryState::Retrying,
            Some("delivery retry 1".to_owned())
        ))
    );
    assert!(d.due(500).is_empty());
    let ids = d.begin_retry("chat").unwrap();
    d.retry_unreached("chat", &ids);
    assert_eq!(
        states(&mut d),
        vec![(DeliveryState::Queued, Some("waiting for peer".to_owned()))]
    );
    assert!(d.due(u64::MAX).is_empty());
    assert_eq!(d.begin_retry("chat"), None);
    let ids = d.begin_resume("chat", 900).unwrap();
    assert_eq!(ids, vec![id_of('a')]);
    assert_eq!(
        states(&mut d),
        vec![(
            DeliveryState::Pending,
            Some("peer online; delivering".to_owned())
        )]
    );
    d.resume_unreached("chat", &ids);
    assert_eq!(
        states(&mut d),
        vec![(DeliveryState::Queued, Some("waiting for peer".to_owned()))]
    );
}

#[test]
fn what_waits_is_found_again_after_a_restart() {
    let mut d = Deliveries::new();
    let list = vec![message(1, 'a', 1), message(2, 'b', 2), message(1, 'c', 3)];
    let mut delivered = Table::new();
    delivered.insert(id_of('c'), ());
    let ids = d.restore_pending("chat", &list, &delivered, &node(1));
    assert_eq!(ids, vec![id_of('a')]);
    d.restore_finished("chat", &ids, true, 10);
    assert_eq!(d.due(10), vec!["chat".to_owned()]);
    assert_eq!(d.waiting_ids("chat"), vec![id_of('a')]);
    d.forget_conversation("chat");
    assert!(!d.has_waiting("chat"));
    assert!(d.due(u64::MAX).is_empty());
}

#[test]
fn a_peer_that_appears_gets_what_waits_for_it() {
    let chat = service();
    let id = direct_conversation_id(node(1), node(2));
    let mut d = Deliveries::new();
    assert!(conversations_to_resume(&chat.index, &d, &node(2)).is_empty());
    d.message_committed(&id, &id_of('a'), 0);
    assert_eq!(
        conversations_to_resume(&chat.index, &d, &node(2)),
        vec![id.clone()]
    );
    assert!(conversations_to_resume(&chat.index, &d, &node(3)).is_empty());
}

// ---------------------------------------------------------------------------
// Packets and sessions
// ---------------------------------------------------------------------------

#[test]
fn frames_carry_their_length() {
    let bytes = frame(PacketRule::Chat, &b"hello".to_vec()).unwrap();
    assert_eq!(bytes, b"\0\0\0\x05hello".to_vec());
    assert_eq!(
        frame_length(PacketRule::Chat, [0, 0, 0, 5]),
        Some(5)
    );
    assert_eq!(frame(PacketRule::Chat, &vec![0; MAX_CHAT_PACKET + 1]), None);
    assert!(frame(PacketRule::Chat, &vec![0; MAX_CHAT_PACKET]).is_some());
    assert_eq!(
        frame(PacketRule::Status, &vec![0; MAX_STATUS_PACKET + 1]),
        None
    );
    assert_eq!(frame_length(PacketRule::Status, [255; 4]), None);
    assert!(is_acknowledgement(*b"ok"));
    assert!(!is_acknowledgement(*b"no"));
}

#[test]
fn the_oldest_session_leaves_a_full_pool() {
    let mut pool = SessionPool::new();
    for seed in 1..=9u8 {
        pool.insert(node(seed), seed as u64, 1_000 + seed as u64);
    }
    assert_eq!(pool.sessions.len(), 8);
    assert_eq!(pool.get(node(1), 1_010), None);
    assert_eq!(pool.get(node(9), 1_010), Some(9));
    pool.insert(node(9), 99, 1_010);
    assert_eq!(pool.get(node(9), 1_010), Some(9));
    assert_eq!(pool.get(node(9), 1_010 + 60_000), None);
}

#[test]
fn a_warm_session_is_tried_before_a_fresh_one() {
    let mut pool = SessionPool::new();
    session_opened(&mut pool, node(2), 5, 0);
    let step = begin_send(&mut pool, node(2), 10);
    assert_eq!(step, SendStep::Reuse(5));
    let step = next_send(&mut pool, node(2), step, StepOutcome::TimedOut, 20);
    assert_eq!(step, SendStep::Dial);
    assert_eq!(pool.get(node(2), 20), None);
    assert_eq!(
        next_send(&mut pool, node(2), step, StepOutcome::Refused, 30),
        SendStep::Failed
    );
    assert_eq!(
        next_send(&mut pool, node(2), SendStep::Dial, StepOutcome::NotConnected, 30),
        SendStep::Failed
    );
    assert_eq!(
        next_send(&mut pool, node(2), SendStep::Dial, StepOutcome::Sent, 30),
        SendStep::Done
    );
}

#[test]
fn a_session_lasts_until_it_fails_or_idles() {
    let mut pool = SessionPool::new();
    session_opened(&mut pool, node(2), 5, 0);
    assert!(session_event(&mut pool, node(2), SessionEvent::StreamOpened, 50_000));
    assert!(session_event(&mut pool, node(2), SessionEvent::Received, 50_001));
    assert_eq!(pool.get(node(2), 100_000), Some(5));
    assert!(!session_event(&mut pool, node(2), SessionEvent::Idle, 100_000));
    assert_eq!(pool.get(node(2), 100_000), None);
    assert!(!session_event(&mut pool, node(2), SessionEvent::Closed, 0));
    assert!(!session_event(&mut pool, node(2), SessionEvent::StreamFailed, 0));
}

#[test]
fn one_peer_is_enough_to_be_reached() {
    assert!(!any_reached(&vec![]));
    assert!(!any_reached(&vec![false, false]));
    assert!(any_reached(&vec![false, true, false]));
}

#[test]
fn counts_keep_messages_of_one_moment_apart() {
    let compose = |body: &str, count: u64| {
        let nonce = mix_nonce(1_000_000_007, count);
        ChatMessage::compose(node(1), body.to_owned(), Vec::new(), 1_000, nonce)
    };
    let (first, second) = (compose("hello", 1), compose("hello", 2));
    assert_ne!(first.entry_key(), second.entry_key());
    assert_ne!(first.message_id, second.message_id);
    assert!(first.entry_key().starts_with("message/"));
    assert!(first.validate().is_ok());
    assert!(compose(" ", 1).validate().is_err());
}

#[test]
fn nonces_in_a_row_differ_though_the_clock_moves() {
    let start: u128 = 1_763_000_000_000_000_000;
    for step in [0u128, 1, 999, 999_999, 0x3fff_ffff_ffff] {
        for count in [1u64, 2, 0x1_ffff, 0xffff_ffff] {
            assert_ne!(mix_nonce(start, count), mix_nonce(start + step, count + 1));
            assert_ne!(mix_nonce(start + step, count), mix_nonce(start, count + 1));
        }
    }
}

#[test]
fn a_group_that_cannot_be_made_is_refused() {
    assert_eq!(check_group(" ", &vec![node(2)], &node(1)), Err(GroupError::EmptyName));
    assert_eq!(
        check_group("Friends", &vec![node(1)], &node(1)),
        Err(GroupError::NoOtherMember)
    );
    assert_eq!(check_group("Friends", &vec![node(1), node(2)], &node(1)), Ok(()));
}
