//! What is shown of conversations, and what the user does in them.
use vstd::prelude::*;
use crate::chat_board::{
    deletion_of, ids_of, is_ours, merged, message_map, message_place, newest_since, news_in,
    shown_of, under_way, unknown_in, with_deletion, ChatBoard, Merge, Progress, OPTIMISTIC_MS,
    RECENT_MS,
};
use crate::clock::{next_count, nonce_of, NonceSource};
use crate::contacts::{display_name_of, peer_initial_of, peer_label, Contacts, FriendView};
use crate::conversation::{direct_id, direct_peer_of, direct_conversation_id, ChatConversation};
use crate::delivery::DeliveryState;
use crate::digits::{decimal, hex_lower, padded_decimal, push_decimal, push_padded};
use crate::message::{
    attachment_views, composed, opt_text, AttachmentView, ChatAttachment, ChatMessage, DeleteScope,
    MessageDeletion, MessageView, RetentionPolicy,
};
use crate::node::{keys_of, parsed_key, short_form, NodeId};
use crate::notifications::{
    message_spec, message_title, NotificationAction, NotificationKind, NotificationSpec,
};
use crate::roster::{opt_key, GroupMemberKind};
use crate::table::Table;
use crate::text::{
    chars_of, ellipsize, ellipsized, lemma_held_after_push, lemma_held_or_last, same_text, trim,
    trimmed,
};
use crate::timeline::message_views;

verus! {

// ---------------------------------------------------------------------------
// Announcing a message
// ---------------------------------------------------------------------------

/// Who a message is announced as.
pub open spec fn announced_author(author_id: Seq<char>, friends: Seq<FriendView>) -> Seq<char> {
    match parsed_key(author_id) {
        Ok(key) => display_name_of(friends, key),
        Err(_) => "New message"@,
    }
}

/// What is announced of a message: its beginning, or how many images it has.
pub open spec fn announced_body(message: MessageView) -> Seq<char> {
    if trimmed(message.body).len() == 0 {
        if message.attachments.len() == 1 {
            "Image"@
        } else {
            decimal(message.attachments.len()) + " images"@
        }
    } else {
        ellipsized(trimmed(message.body), 180)
    }
}

/// The card that announces a message.
pub fn message_card(
    conversation_id: String,
    conversation_title: String,
    message: &ChatMessage,
    contacts: &Contacts,
) -> (card: NotificationSpec)
    ensures
        opt_text(card.group_key) == Some("conversation:"@ + conversation_id@),
        card.kind == NotificationKind::Message,
        card.title@ == message_title(
            announced_author(message@.author_id, contacts@),
            conversation_title@,
        ),
        card.body@ == announced_body(message@),
        card.action == Some(NotificationAction::OpenConversation(conversation_id)),
        card.buttons@.len() == 0,
{
    let author: String = match NodeId::parse(message.author_id.as_str()) {
        Ok(node) => contacts.peer_display_name(&node),
        Err(_) => "New message".to_owned(),
    };
    let text = trim(message.body.as_str());
    let body: String = if text.as_str().unicode_len() == 0 {
        if message.attachments.len() == 1 {
            "Image".to_owned()
        } else {
            let mut s: String = String::new();
            push_decimal(&mut s, message.attachments.len() as u64);
            s.append(" images");
            assert(s@ =~= decimal(message@.attachments.len()) + " images"@);
            s
        }
    } else {
        ellipsize(text.as_str(), 180)
    };
    message_spec(conversation_id, conversation_title, author, body)
}

// ---------------------------------------------------------------------------
// Messages
// ---------------------------------------------------------------------------

/// How messages are laid out.
#[derive(Clone, Copy, Debug, PartialEq, Eq, Structural)]
pub enum ChatStyle {
    Bubbles,
    Compact,
}

impl Default for ChatStyle {
    fn default() -> (s: Self)
        ensures
            s == ChatStyle::Bubbles,
    {
        ChatStyle::Bubbles
    }
}

/// The messages that are not too old to be shown.
pub open spec fn visible_in(messages: Seq<MessageView>, retention: RetentionPolicy, now: int) -> Seq<
    MessageView,
>
    decreases messages.len(),
{
    if messages.len() == 0 {
        Seq::empty()
    } else {
        let rest = visible_in(messages.drop_last(), retention, now);
        if retention.shows(messages.last().sent_at, now) {
            rest.push(messages.last())
        } else {
            rest
        }
    }
}

/// The messages that are not too old to be shown.
pub fn visible_messages(timeline: &Vec<ChatMessage>, retention: RetentionPolicy, now: i64) -> (r: Vec<
    ChatMessage,
>)
    ensures
        message_views(r@) == visible_in(message_views(timeline@), retention, now as int),
{
    let ghost all = message_views(timeline@);
    let mut r: Vec<ChatMessage> = Vec::new();
    let mut i: usize = 0;
    proof {
        assert(all.take(0) =~= Seq::empty());
        assert(message_views(r@) =~= Seq::empty());
    }
    while i < timeline.len()
        invariant
            0 <= i <= timeline@.len(),
            all == message_views(timeline@),
            message_views(r@) == visible_in(all.take(i as int), retention, now as int),
        decreases timeline@.len() - i,
    {
        let ghost before = message_views(r@);
        assert(all.take(i as int + 1).drop_last() =~= all.take(i as int));
        if retention.includes(timeline[i].sent_at, now) {
            r.push(timeline[i].clone());
            assert(message_views(r@) =~= before.push(timeline@[i as int]@));
        }
        i += 1;
    }
    assert(all.take(all.len() as int) =~= all);
    r
}

/// The minute of a time.
pub open spec fn minute_of(sent_at: int) -> int {
    sent_at / 60_000
}

/// Whether two messages are shown under one name: of the same author within the same minute.
pub fn messages_share_compact_group(previous: &ChatMessage, current: &ChatMessage) -> (r: bool)
    ensures
        r == (previous@.author_id == current@.author_id && minute_of(previous@.sent_at)
            == minute_of(current@.sent_at)),
{
    same_text(previous.author_id.as_str(), current.author_id.as_str())
        && previous.sent_at.div_euclid(60_000) == current.sent_at.div_euclid(60_000)
}

/// Whether a message begins a group.
pub open spec fn begins_group(messages: Seq<MessageView>, i: int) -> bool {
    i == 0 || messages[i - 1].author_id != messages[i].author_id || minute_of(
        messages[i - 1].sent_at,
    ) != minute_of(messages[i].sent_at)
}

/// Whether a message begins a group.
pub fn starts_group(messages: &Vec<ChatMessage>, index: usize) -> (r: bool)
    requires
        index < messages@.len(),
    ensures
        r == begins_group(message_views(messages@), index as int),
{
    index == 0 || !messages_share_compact_group(&messages[index - 1], &messages[index])
}

/// The space below a message.
pub fn message_gap(style: ChatStyle, messages: &Vec<ChatMessage>, index: usize) -> (gap: u8)
    requires
        index < messages@.len(),
    ensures
        gap == match style {
            ChatStyle::Bubbles => 9u8,
            ChatStyle::Compact => if index + 1 < messages@.len() && !begins_group(
                message_views(messages@),
                index + 1,
            ) {
                2
            } else {
                10
            },
        },
{
    match style {
        ChatStyle::Bubbles => 9,
        ChatStyle::Compact => if index < messages.len() - 1 && messages_share_compact_group(
            &messages[index],
            &messages[index + 1],
        ) {
            2
        } else {
            10
        },
    }
}

/// The time of day of a message, in UTC.
pub open spec fn time_text(sent_at: int) -> Seq<char> {
    padded_decimal((minute_of(sent_at) / 60 % 24) as nat, 2) + ":"@ + padded_decimal(
        (minute_of(sent_at) % 60) as nat,
        2,
    )
}

/// The time of day of a message.
pub fn format_chat_time(sent_at: i64) -> (s: String)
    ensures
        s@ == time_text(sent_at as int),
{
    let total_minutes: i64 = sent_at.div_euclid(60_000);
    let hour: i64 = total_minutes.div_euclid(60).rem_euclid(24);
    let minute: i64 = total_minutes.rem_euclid(60);
    let mut s: String = String::new();
    push_padded(&mut s, hour as u64, 2);
    s.append(":");
    push_padded(&mut s, minute as u64, 2);
    assert(s@ =~= time_text(sent_at as int));
    s
}

/// Who a message is shown as.
pub open spec fn author_text(
    message: MessageView,
    ours: Option<Seq<u8>>,
    friends: Seq<FriendView>,
) -> Seq<char> {
    if is_ours(message, ours) {
        "You"@
    } else {
        match parsed_key(message.author_id) {
            Ok(key) => display_name_of(friends, key),
            Err(_) => "Unknown peer"@,
        }
    }
}

/// Who a message is shown as, and whether it is ours.
pub fn author_label(message: &ChatMessage, our_node_id: &Option<NodeId>, contacts: &Contacts) -> (r: (
    String,
    bool,
))
    ensures
        r.0@ == author_text(message@, opt_key(*our_node_id), contacts@),
        r.1 == is_ours(message@, opt_key(*our_node_id)),
{
    let own = match our_node_id {
        Some(node) => same_text(message.author_id.as_str(), node.to_text().as_str()),
        None => false,
    };
    if own {
        return ("You".to_owned(), true);
    }
    match NodeId::parse(message.author_id.as_str()) {
        Ok(node) => (contacts.peer_display_name(&node), false),
        Err(_) => ("Unknown peer".to_owned(), false),
    }
}

/// The text of a message as it shows.
pub open spec fn body_shown(message: MessageView) -> Seq<char> {
    match message.deletion {
        Some(MessageDeletion::Local) => "You deleted this message"@,
        Some(MessageDeletion::Everyone) => "This message was deleted"@,
        None => message.body,
    }
}

/// The text of a message as it shows; none where there is none to show.
pub fn message_body_text(message: &ChatMessage) -> (r: Option<String>)
    ensures
        match r {
            Some(s) => (message@.deletion is Some || trimmed(message@.body).len() > 0) && s@
                == body_shown(message@),
            None => message@.deletion is None && trimmed(message@.body).len() == 0,
        },
{
    match message.deletion {
        Some(MessageDeletion::Local) => Some("You deleted this message".to_owned()),
        Some(MessageDeletion::Everyone) => Some("This message was deleted".to_owned()),
        None => if trim(message.body.as_str()).as_str().unicode_len() == 0 {
            None
        } else {
            Some(message.body.clone())
        },
    }
}

/// What the menu of a message offers.
#[derive(Clone, Copy, Debug, PartialEq, Eq, Structural)]
pub enum MessageMenu {
    Nothing,
    Restore,
    Delete(DeleteScope),
}

/// What the menu of a message offers: to restore what was deleted here, and to delete our own for
/// everyone and the others' for us.
pub fn message_menu(deletion: Option<MessageDeletion>, own: bool) -> (r: MessageMenu)
    ensures
        r == match deletion {
            Some(MessageDeletion::Local) => MessageMenu::Restore,
            Some(MessageDeletion::Everyone) => MessageMenu::Nothing,
            None => MessageMenu::Delete(
                if own {
                    DeleteScope::Everyone
                } else {
                    DeleteScope::Local
                },
            ),
        },
{
    match deletion {
        Some(MessageDeletion::Local) => MessageMenu::Restore,
        Some(MessageDeletion::Everyone) => MessageMenu::Nothing,
        None => if own {
            MessageMenu::Delete(DeleteScope::Everyone)
        } else {
            MessageMenu::Delete(DeleteScope::Local)
        },
    }
}

/// The text of a menu entry.
pub fn menu_text(entry: MessageMenu) -> (r: Option<&'static str>)
    ensures
        match r {
            Some(s) => entry != MessageMenu::Nothing && s@ == match entry {
                MessageMenu::Delete(DeleteScope::Everyone) => "Delete for everyone"@,
                MessageMenu::Delete(DeleteScope::Local) => "Delete for me"@,
                _ => "Restore message"@,
            },
            None => entry == MessageMenu::Nothing,
        },
{
    match entry {
        MessageMenu::Nothing => None,
        MessageMenu::Restore => Some("Restore message"),
        MessageMenu::Delete(DeleteScope::Everyone) => Some("Delete for everyone"),
        MessageMenu::Delete(DeleteScope::Local) => Some("Delete for me"),
    }
}

/// How far a message was delivered; one of which nothing is known was.
pub fn delivery_of(board: &ChatBoard, message_id: &String) -> (r: Progress)
    requires
        board.wf(),
    ensures
        r == if board.delivery@.contains_key(message_id@) {
            board.delivery@[message_id@]
        } else {
            (DeliveryState::Delivered, None)
        },
{
    match board.delivery.get(message_id) {
        Some(progress) => {
            let detail = match &progress.1 {
                Some(s) => Some(s.clone()),
                None => None,
            };
            (progress.0, detail)
        },
        None => (DeliveryState::Delivered, None),
    }
}

/// Whether a message is shown paler: it is on its way.
pub fn is_faded(state: DeliveryState) -> (r: bool)
    ensures
        r == (state == DeliveryState::Pending || state == DeliveryState::Queued || state
            == DeliveryState::Retrying),
{
    match state {
        DeliveryState::Pending => true,
        DeliveryState::Queued => true,
        DeliveryState::Retrying => true,
        DeliveryState::Delivered => false,
        DeliveryState::Failed => false,
    }
}

/// What is said of the delivery of a message.
pub open spec fn tip_of(state: DeliveryState, detail: Option<Seq<char>>) -> Option<Seq<char>> {
    match state {
        DeliveryState::Delivered => None,
        DeliveryState::Pending => Some("Sending…"@),
        DeliveryState::Retrying => Some(
            match detail {
                Some(s) => s,
                None => "Retrying delivery…"@,
            },
        ),
        DeliveryState::Queued => Some(
            match detail {
                Some(s) => s,
                None => "Queued — waiting for peer"@,
            },
        ),
        DeliveryState::Failed => Some(
            match detail {
                Some(s) => s,
                None => "Failed to send"@,
            },
        ),
    }
}

/// What is said of the delivery of a message, where anything is.
pub fn delivery_tip(state: DeliveryState, detail: &Option<String>) -> (r: Option<String>)
    ensures
        opt_text(r) == tip_of(state, opt_text(*detail)),
{
    let fallback: String = match state {
        DeliveryState::Delivered => {
            return None;
        },
        DeliveryState::Pending => {
            return Some("Sending…".to_owned());
        },
        DeliveryState::Retrying => "Retrying delivery…".to_owned(),
        DeliveryState::Queued => "Queued — waiting for peer".to_owned(),
        DeliveryState::Failed => "Failed to send".to_owned(),
    };
    match detail {
        Some(s) => Some(s.clone()),
        None => Some(fallback),
    }
}

/// Whether the delivery of a message is shown beside it: where its name is not shown above.
pub fn shows_status_beside(
    own: bool,
    deletion: Option<MessageDeletion>,
    starts_group: bool,
    state: DeliveryState,
) -> (r: bool)
    ensures
        r == (own && deletion is None && !starts_group && state != DeliveryState::Delivered),
{
    own && deletion.is_none() && !starts_group && state != DeliveryState::Delivered
}

// ---------------------------------------------------------------------------
// The composer
// ---------------------------------------------------------------------------

/// What is being written.
pub struct Composer {
    pub text: String,
    pub drafts: Vec<ChatAttachment>,
    pub error: Option<String>,
}

impl Composer {
    /// Takes what was written as a message. Nothing but white space is thrown away; while we are
    /// not connected, everything stays as it is.
    pub fn send_chat_composer(&mut self, author: &Option<NodeId>, nonces: &mut NonceSource) -> (r:
        Option<ChatMessage>)
        ensures
            ({
                let empty = trimmed(old(self).text@).len() == 0 && old(self).drafts@.len() == 0;
                &&& r is Some <==> !empty && *author is Some
                &&& r is Some ==> r->0@ == composed(
                    author->0@,
                    trimmed(old(self).text@),
                    attachment_views(old(self).drafts@),
                    r->0.sent_at as int,
                    r->0.nonce as nat,
                ) && r->0.sent_at >= 0 && exists|nanos: u128|
                    r->0.nonce == #[trigger] nonce_of(nanos, old(nonces).count())
                &&& r is Some ==> final(nonces).count() == next_count(old(nonces).count())
                    && final(self).text@.len() == 0 && final(self).drafts@.len() == 0
                    && final(self).error == old(self).error
                &&& r is None ==> final(nonces).count() == old(nonces).count()
                &&& empty ==> final(self).text@.len() == 0 && final(self).drafts
                    == old(self).drafts && final(self).error == old(self).error
                &&& !empty && *author is None ==> final(self).text == old(self).text
                    && final(self).drafts == old(self).drafts && opt_text(final(self).error)
                    == Some("Chat is still connecting to Iroh."@)
            }),
    {
        let body = trim(self.text.as_str());
        if body.as_str().unicode_len() == 0 && self.drafts.len() == 0 {
            self.text = String::new();
            return None;
        }
        match author {
            None => {
                self.error = Some("Chat is still connecting to Iroh.".to_owned());
                None
            },
            Some(author) => {
                self.text = String::new();
                let mut attachments: Vec<ChatAttachment> = Vec::new();
                std::mem::swap(&mut attachments, &mut self.drafts);
                Some(ChatMessage::new_with_attachments(*author, body, attachments, nonces))
            },
        }
    }

    /// Takes an image out of what is being written.
    pub fn remove_draft(&mut self, id: &str)
        ensures
            attachment_views(final(self).drafts@) == without_draft(
                attachment_views(old(self).drafts@),
                id@,
            ),
            final(self).text == old(self).text,
            final(self).error == old(self).error,
    {
        let ghost all = attachment_views(self.drafts@);
        let mut kept: Vec<ChatAttachment> = Vec::new();
        let mut i: usize = 0;
        proof {
            assert(all.take(0) =~= Seq::empty());
            assert(attachment_views(kept@) =~= Seq::empty());
        }
        while i < self.drafts.len()
            invariant
                0 <= i <= self.drafts@.len(),
                all == attachment_views(self.drafts@),
                attachment_views(kept@) == without_draft(all.take(i as int), id@),
                self.text == old(self).text,
                self.error == old(self).error,
            decreases self.drafts@.len() - i,
        {
            let ghost before = attachment_views(kept@);
            assert(all.take(i as int + 1).drop_last() =~= all.take(i as int));
            if !same_text(self.drafts[i].id.as_str(), id) {
                kept.push(self.drafts[i].clone());
                assert(attachment_views(kept@) =~= before.push(self.drafts@[i as int]@));
            }
            i += 1;
        }
        assert(all.take(all.len() as int) =~= all);
        self.drafts = kept;
    }
}

/// Attachments without those of an id.
pub open spec fn without_draft(drafts: Seq<AttachmentView>, id: Seq<char>) -> Seq<AttachmentView>
    decreases drafts.len(),
{
    if drafts.len() == 0 {
        Seq::empty()
    } else {
        let rest = without_draft(drafts.drop_last(), id);
        if drafts.last().id == id {
            rest
        } else {
            rest.push(drafts.last())
        }
    }
}

/// The rows that a line of so many characters takes up.
pub open spec fn rows_for(chars: int, columns: int) -> int {
    ((if chars > 1 {
        chars
    } else {
        1
    }) + columns - 1) / columns
}

/// The rows that a text takes up whose first line has so many characters already.
pub open spec fn rows_from(s: Seq<char>, columns: int, begun: int) -> int
    decreases s.len(),
{
    if s.len() == 0 {
        rows_for(begun, columns)
    } else if s[0] == '\n' {
        rows_for(begun, columns) + rows_from(s.drop_first(), columns, 0)
    } else {
        rows_from(s.drop_first(), columns, begun + 1)
    }
}

/// A number of rows within what the composer may have.
pub open spec fn row_limit(rows: int) -> int {
    if rows < 1 {
        1
    } else if rows > 8 {
        8
    } else {
        rows
    }
}

proof fn lemma_rows_positive(s: Seq<char>, columns: int, begun: int)
    requires
        columns >= 1,
        begun >= 0,
    ensures
        rows_for(begun, columns) >= 1,
        rows_from(s, columns, begun) >= 1,
    decreases s.len(),
{
    let n = if begun > 1 {
        begun
    } else {
        1
    };
    assert((n + columns - 1) / columns >= 1) by (nonlinear_arith)
        requires
            n >= 1,
            columns >= 1,
    ;
    if s.len() > 0 {
        if s[0] == '\n' {
            lemma_rows_positive(s.drop_first(), columns, 0);
        } else {
            lemma_rows_positive(s.drop_first(), columns, begun + 1);
        }
    }
}

fn count_rows(chars: usize, columns: usize) -> (rows: u128)
    requires
        columns >= 1,
    ensures
        rows == rows_for(chars as int, columns as int),
{
    let n: u128 = if chars > 1 {
        chars as u128
    } else {
        1
    };
    (n + columns as u128 - 1) / columns as u128
}

/// The rows that the composer shows for a text, of so many characters each: at least one and at
/// most eight.
pub fn composer_visual_rows(text: &str, columns: usize) -> (rows: usize)
    requires
        columns >= 1,
    ensures
        rows == row_limit(rows_from(text@, columns as int, 0)),
{
    let v = chars_of(text);
    let mut total: u128 = 0;
    let mut begun: usize = 0;
    let mut i: usize = 0;
    let ghost mut done: int = 0;
    assert(v@.skip(0) =~= v@);
    while i < v.len()
        invariant
            0 <= i <= v@.len(),
            v@ == text@,
            columns >= 1,
            begun <= i,
            done >= 0,
            total == (if done > 8 {
                8
            } else {
                done
            }),
            rows_from(text@, columns as int, 0) == done + rows_from(
                v@.skip(i as int),
                columns as int,
                begun as int,
            ),
        decreases v@.len() - i,
    {
        assert(v@.skip(i as int).drop_first() =~= v@.skip(i as int + 1));
        if v[i] == '\n' {
            let rows = count_rows(begun, columns);
            proof {
                lemma_rows_positive(v@.skip(i as int), columns as int, begun as int);
                done = done + rows as int;
            }
            total = if total + rows > 8 {
                8
            } else {
                total + rows
            };
            begun = 0;
        } else {
            begun = begun + 1;
        }
        i += 1;
    }
    let rows = count_rows(begun, columns);
    proof {
        lemma_rows_positive(v@.skip(i as int), columns as int, begun as int);
    }
    if total + rows > 8 {
        8
    } else {
        (total + rows) as usize
    }
}

// ---------------------------------------------------------------------------
// Headers and lists
// ---------------------------------------------------------------------------

/// The title of a conversation: the name of its peer, or its own.
pub fn display_title(conversation: &ChatConversation, contacts: &Contacts) -> (s: String)
    ensures
        s@ == match direct_peer_of(conversation@.kind) {
            Some(key) => display_name_of(contacts@, key),
            None => conversation@.title,
        },
{
    match conversation.direct_peer() {
        Some(peer) => contacts.peer_display_name(&peer),
        None => conversation.title.clone(),
    }
}

/// What stands where no conversation is selected.
pub fn empty_chat_texts(service_error: &Option<String>) -> (r: (String, String))
    ensures
        r.0@ == if *service_error is Some {
            "Chat is unavailable"@
        } else {
            "Choose a conversation"@
        },
        r.1@ == match *service_error {
            Some(error) => error@,
            None => "Messages are available independently of calls."@,
        },
{
    match service_error {
        Some(error) => ("Chat is unavailable".to_owned(), error.clone()),
        None => (
            "Choose a conversation".to_owned(),
            "Messages are available independently of calls.".to_owned(),
        ),
    }
}

/// A conversation with a contact in the list of conversations.
pub struct DirectRow {
    pub peer: NodeId,
    /// The conversation's id, once we know who we are.
    pub id: Option<String>,
    pub label: String,
    pub selected: bool,
    pub unseen: bool,
}

/// A contact in the list of conversations; none where its key cannot be read.
pub fn direct_row(
    contacts: &Contacts,
    index: usize,
    our_node_id: &Option<NodeId>,
    board: &ChatBoard,
) -> (r: Option<DirectRow>)
    requires
        index < contacts@.len(),
        board.wf(),
    ensures
        match r {
            None => parsed_key(trimmed(contacts@[index as int].node_id)) is Err,
            Some(row) => {
                &&& parsed_key(trimmed(contacts@[index as int].node_id)) == Ok::<
                    Seq<u8>,
                    Seq<char>,
                >(row.peer@)
                &&& opt_text(row.id) == match opt_key(*our_node_id) {
                    Some(ours) => Some(direct_id(ours, row.peer@)),
                    None => None,
                }
                &&& row.label@ == peer_initial_of(contacts@, row.peer@) + "   "@
                    + contacts@[index as int].name
                &&& row.selected == (row.id is Some && opt_text(board.selected) == opt_text(
                    row.id,
                ))
                &&& row.unseen == (row.id is Some && board.unseen@.contains_key(row.id->0@))
            },
        },
{
    let friend = &contacts.friends[index];
    assert(contacts@[index as int] == friend@);
    let peer = match NodeId::parse(trim(friend.node_id.as_str()).as_str()) {
        Ok(peer) => peer,
        Err(_) => {
            return None;
        },
    };
    let mut label = contacts.peer_initial(&peer);
    label.append("   ");
    label.append(friend.name.as_str());
    match our_node_id {
        Some(ours) => {
            let id = direct_conversation_id(*ours, peer);
            let selected = match &board.selected {
                Some(selected) => same_text(selected.as_str(), id.as_str()),
                None => false,
            };
            let unseen = board.unseen.has(&id);
            Some(DirectRow { peer, id: Some(id), label, selected, unseen })
        },
        None => Some(DirectRow { peer, id: None, label, selected: false, unseen: false }),
    }
}

/// The label of a conversation with a stranger.
pub fn stranger_label(contacts: &Contacts, peer: &NodeId) -> (s: String)
    ensures
        s@ == peer_initial_of(contacts@, peer@) + "   Peer "@ + short_form(peer@),
{
    let mut s = contacts.peer_initial(peer);
    s.append("   Peer ");
    s.append(peer.fmt_short().as_str());
    s
}

/// The label of a group.
pub fn group_label(title: &str) -> (s: String)
    ensures
        s@ == "#   "@ + title@,
{
    let mut s: String = "#   ".to_owned();
    s.append(title);
    s
}

/// Selects a conversation; says whether it has to be begun.
pub fn select_conversation(board: &mut ChatBoard, id: String) -> (begin: bool)
    requires
        old(board).wf(),
    ensures
        final(board).wf(),
        begin == !old(board).conversations@.contains_key(id@),
        opt_text(final(board).selected) == Some(id@),
        final(board).conversations == old(board).conversations,
        final(board).timelines == old(board).timelines,
        final(board).delivery == old(board).delivery,
        final(board).unseen == old(board).unseen,
        final(board).requests == old(board).requests,
        final(board).older == old(board).older,
        final(board).ready == old(board).ready,
{
    let begin = !board.conversations.has(&id);
    board.selected = Some(id);
    begin
}

// ---------------------------------------------------------------------------
// Groups and new contacts
// ---------------------------------------------------------------------------

/// What is wrong with a group that is to be made.
pub const GROUP_INCOMPLETE: &'static str = "Give the group a name and choose at least one friend.";

/// The keys in a table of peers.
pub open spec fn table_keys(entries: Seq<(NodeId, ())>) -> Seq<Seq<u8>> {
    Seq::new(entries.len(), |i: int| entries[i].0@)
}

/// The group that is to be made: its name and its members; none where either is missing.
pub fn group_request(name: &str, members: &Table<NodeId, ()>) -> (r: Option<(String, Vec<NodeId>)>)
    ensures
        match r {
            Some((title, peers)) => trimmed(name@).len() > 0 && members.entries@.len() > 0
                && title@ == trimmed(name@) && keys_of(peers@) == table_keys(members.entries@),
            None => trimmed(name@).len() == 0 || members.entries@.len() == 0,
        },
{
    let title = trim(name);
    if title.as_str().unicode_len() == 0 || members.entries.len() == 0 {
        return None;
    }
    let mut peers: Vec<NodeId> = Vec::new();
    let mut i: usize = 0;
    while i < members.entries.len()
        invariant
            0 <= i <= members.entries@.len(),
            peers@.len() == i,
            forall|j: int| 0 <= j < i ==> (#[trigger] peers@[j])@ == members.entries@[j].0@,
        decreases members.entries@.len() - i,
    {
        peers.push(members.entries[i].0);
        i += 1;
    }
    assert(keys_of(peers@) =~= table_keys(members.entries@));
    Some((title, peers))
}

/// The name of a new contact: what was typed in, or its short key.
pub fn candidate_name(typed: &str, peer: &NodeId) -> (s: String)
    ensures
        s@ == if trimmed(typed@).len() == 0 {
            peer_label(peer@)
        } else {
            trimmed(typed@)
        },
{
    let name = trim(typed);
    if name.as_str().unicode_len() == 0 {
        crate::contacts::label_peer(peer)
    } else {
        name
    }
}

/// How many members a group has, in words.
pub fn member_count(count: usize) -> (s: String)
    ensures
        s@ == decimal(count as nat) + " "@ + (if count == 1 {
            "member"@
        } else {
            "members"@
        }),
{
    let mut s: String = String::new();
    push_decimal(&mut s, count as u64);
    s.append(" ");
    if count == 1 {
        s.append("member");
    } else {
        s.append("members");
    }
    assert(s@ =~= decimal(count as nat) + " "@ + (if count == 1 {
        "member"@
    } else {
        "members"@
    }));
    s
}

/// How a member of a group is known, in words.
pub fn member_role(kind: GroupMemberKind) -> (s: &'static str)
    ensures
        s@ == match kind {
            GroupMemberKind::You => "You"@,
            GroupMemberKind::Friend => "Friend"@,
            GroupMemberKind::Unknown => "Unknown ID"@,
        },
{
    match kind {
        GroupMemberKind::You => "You",
        GroupMemberKind::Friend => "Friend",
        GroupMemberKind::Unknown => "Unknown ID",
    }
}

// ---------------------------------------------------------------------------
// Laws
// ---------------------------------------------------------------------------

/// Whatever the service lists is shown as it lists it.
pub proof fn law_listed_messages_are_shown(
    start: Merge,
    existing: Seq<MessageView>,
    ours: Option<Seq<u8>>,
    cutoff: int,
    id: Seq<char>,
)
    requires
        start.messages.contains_key(id),
    ensures
        merged(start, existing, ours, cutoff).messages.contains_key(id),
        merged(start, existing, ours, cutoff).messages[id] == start.messages[id],
    decreases existing.len(),
{
    if existing.len() > 0 {
        law_listed_messages_are_shown(start, existing.drop_last(), ours, cutoff, id);
    }
}

/// What the service does not list is shown only where it was shown before, is ours, is recent
/// and is still on its way: a history that was cleared stays cleared.
pub proof fn law_only_recent_sends_outlive_the_service(
    start: Merge,
    existing: Seq<MessageView>,
    ours: Option<Seq<u8>>,
    cutoff: int,
    id: Seq<char>,
)
    requires
        merged(start, existing, ours, cutoff).messages.contains_key(id),
        !start.messages.contains_key(id),
    ensures
        ({
            let kept = merged(start, existing, ours, cutoff).messages[id];
            &&& existing.contains(kept)
            &&& kept.message_id == id
            &&& kept.sent_at >= cutoff
            &&& is_ours(kept, ours)
            &&& under_way(start.delivery, id)
        }),
    decreases existing.len(),
{
    if existing.len() > 0 {
        let rest = existing.drop_last();
        let before = merged(start, rest, ours, cutoff);
        assert(existing[existing.len() - 1] == existing.last());
        if before.messages.contains_key(id) {
            law_only_recent_sends_outlive_the_service(start, rest, ours, cutoff, id);
            let kept = before.messages[id];
            let k = choose|k: int| 0 <= k < rest.len() && rest[k] == kept;
            assert(existing[k] == kept);
        } else {
            lemma_delivery_shrinks(start, rest, ours, cutoff);
        }
    }
}

proof fn lemma_delivery_shrinks(
    start: Merge,
    existing: Seq<MessageView>,
    ours: Option<Seq<u8>>,
    cutoff: int,
)
    ensures
        merged(start, existing, ours, cutoff).delivery.submap_of(start.delivery),
    decreases existing.len(),
{
    let after = merged(start, existing, ours, cutoff).delivery;
    if existing.len() > 0 {
        lemma_delivery_shrinks(start, existing.drop_last(), ours, cutoff);
        let before = merged(start, existing.drop_last(), ours, cutoff).delivery;
        assert forall|id: Seq<char>| after.contains_key(id) implies start.delivery.contains_key(id)
            && after[id] == start.delivery[id] by {
            assert(before.contains_key(id));
        }
    }
    assert(after.submap_of(start.delivery));
}

/// A recent message of ours that is on its way stays in sight until the service lists it.
pub proof fn law_recent_send_stays_in_sight(
    start: Merge,
    existing: Seq<MessageView>,
    ours: Option<Seq<u8>>,
    cutoff: int,
    k: int,
)
    requires
        0 <= k < existing.len(),
        existing[k].sent_at >= cutoff,
        is_ours(existing[k], ours),
        under_way(start.delivery, existing[k].message_id),
        forall|j: int| 0 <= j < k ==> (#[trigger] existing[j]).message_id != existing[k].message_id,
    ensures
        merged(start, existing, ours, cutoff).messages.contains_key(existing[k].message_id),
    decreases existing.len(),
{
    let rest = existing.drop_last();
    let id = existing[k].message_id;
    if k < rest.len() {
        assert(rest[k] == existing[k]);
        assert forall|j: int| 0 <= j < k implies (#[trigger] rest[j]).message_id
            != rest[k].message_id by {
            assert(rest[j] == existing[j]);
        }
        law_recent_send_stays_in_sight(start, rest, ours, cutoff, k);
    } else {
        assert forall|j: int| 0 <= j < rest.len() implies (#[trigger] rest[j]).message_id != id by {
            assert(rest[j] == existing[j]);
        }
        lemma_delivery_untouched(start, rest, ours, cutoff, id);
        assert(existing.last() == existing[k]);
    }
}

proof fn lemma_delivery_untouched(
    start: Merge,
    existing: Seq<MessageView>,
    ours: Option<Seq<u8>>,
    cutoff: int,
    id: Seq<char>,
)
    requires
        forall|j: int| 0 <= j < existing.len() ==> (#[trigger] existing[j]).message_id != id,
        start.delivery.contains_key(id),
    ensures
        merged(start, existing, ours, cutoff).delivery.contains_key(id),
        merged(start, existing, ours, cutoff).delivery[id] == start.delivery[id],
    decreases existing.len(),
{
    if existing.len() > 0 {
        let rest = existing.drop_last();
        assert(existing[existing.len() - 1].message_id != id);
        assert forall|j: int| 0 <= j < rest.len() implies (#[trigger] rest[j]).message_id != id by {
            assert(rest[j] == existing[j]);
        }
        lemma_delivery_untouched(start, rest, ours, cutoff, id);
    }
}

/// Restoring a message shows the conversation as it was before the message was deleted.
pub proof fn law_restoring_shows_the_message_again(
    messages: Seq<MessageView>,
    id: Seq<char>,
    scope: DeleteScope,
)
    requires
        forall|i: int|
            0 <= i < messages.len() && (#[trigger] messages[i]).message_id == id
                ==> messages[i].deletion is None,
    ensures
        with_deletion(with_deletion(messages, id, Some(deletion_of(scope))), id, None) == messages,
{
    let at = message_place(messages, id) as int;
    let hidden = with_deletion(messages, id, Some(deletion_of(scope)));
    lemma_place_of(messages, id);
    lemma_place_of(hidden, id);
    if at < messages.len() {
        let back = message_place(hidden, id) as int;
        assert(hidden[at].message_id == id);
        if back < at {
            assert(hidden[back] == messages[back]);
        }
        assert(back == at);
        assert(messages[at].deletion is None);
        assert(hidden.update(at, MessageView { deletion: None, ..hidden[at] }) =~= messages);
    }
}

proof fn lemma_place_of(messages: Seq<MessageView>, id: Seq<char>)
    ensures
        message_place(messages, id) <= messages.len(),
        message_place(messages, id) < messages.len() ==> messages[message_place(
            messages,
            id,
        ) as int].message_id == id,
        forall|j: int|
            0 <= j < message_place(messages, id) ==> (#[trigger] messages[j]).message_id != id,
    decreases messages.len(),
{
    if messages.len() > 0 && messages[0].message_id != id {
        let rest = messages.drop_first();
        lemma_place_of(rest, id);
        assert forall|j: int| 0 <= j < message_place(messages, id) implies (
        #[trigger] messages[j]).message_id != id by {
            if j > 0 {
                assert(rest[j - 1] == messages[j]);
            }
        }
    }
}

/// No message of ours, none that is deleted and none that was shown before is news.
pub proof fn law_news_are_of_others(
    messages: Seq<MessageView>,
    known: Seq<Seq<char>>,
    ours: Option<Seq<u8>>,
    m: MessageView,
)
    ensures
        unknown_in(messages, known, ours).contains(m) <==> messages.contains(m) && !is_ours(
            m,
            ours,
        ) && m.deletion is None && !known.contains(m.message_id),
    decreases messages.len(),
{
    let news = unknown_in(messages, known, ours);
    if messages.len() > 0 {
        let rest = messages.drop_last();
        let before = unknown_in(rest, known, ours);
        law_news_are_of_others(rest, known, ours, m);
        assert(messages[messages.len() - 1] == messages.last());
        if news.contains(m) {
            let k = choose|k: int| 0 <= k < news.len() && news[k] == m;
            if k < before.len() {
                assert(before[k] == m);
                assert(before.contains(m));
                let i = choose|i: int| 0 <= i < rest.len() && rest[i] == m;
                assert(messages[i] == m);
            }
        }
        if messages.contains(m) && !is_ours(m, ours) && m.deletion is None && !known.contains(
            m.message_id,
        ) {
            let i = choose|i: int| 0 <= i < messages.len() && messages[i] == m;
            if i < rest.len() {
                assert(rest[i] == m);
                assert(rest.contains(m));
                let k = choose|k: int| 0 <= k < before.len() && before[k] == m;
                assert(news[k] == m);
            } else {
                assert(news[news.len() - 1] == m);
            }
        }
    }
}

/// What is told of a conversation that was shown before are just those messages of others that
/// were not among what was shown and are not deleted.
pub proof fn law_every_new_message_is_told(
    timeline: Seq<MessageView>,
    ready: bool,
    messages: Seq<MessageView>,
    ours: Seq<u8>,
    now: int,
    m: MessageView,
)
    ensures
        news_in(Some(timeline), ready, messages, Some(ours), now).contains(m)
            <==> messages.contains(m) && m.author_id != hex_lower(ours) && m.deletion is None && !(
        exists|i: int|
            0 <= i < timeline.len() && (#[trigger] timeline[i]).message_id == m.message_id),
{
    let known = ids_of(timeline);
    law_news_are_of_others(messages, known, Some(ours), m);
    if known.contains(m.message_id) {
        let i = choose|i: int| 0 <= i < known.len() && known[i] == m.message_id;
        assert(timeline[i].message_id == m.message_id);
    }
    if exists|i: int|
        0 <= i < timeline.len() && (#[trigger] timeline[i]).message_id == m.message_id {
        let i = choose|i: int|
            0 <= i < timeline.len() && (#[trigger] timeline[i]).message_id == m.message_id;
        assert(known[i] == m.message_id);
    }
}

/// Of a conversation that is shown for the first time nothing is told during the start, and
/// later at most one message: the newest that somebody else wrote in the last ten minutes and
/// that is not deleted.
pub proof fn law_first_sight_tells_of_the_newest(
    ready: bool,
    messages: Seq<MessageView>,
    ours: Seq<u8>,
    now: int,
    k: int,
)
    requires
        0 <= k < messages.len(),
    ensures
        ({
            let news = news_in(None, ready, messages, Some(ours), now);
            let recent = messages[k].sent_at >= now - 600_000 && messages[k].deletion is None
                && messages[k].author_id != hex_lower(ours);
            &&& news.len() <= 1
            &&& !ready ==> news.len() == 0
            &&& ready && recent ==> news.len() == 1 && news[0].sent_at >= messages[k].sent_at
            &&& news.len() == 1 ==> messages.contains(news[0]) && news[0].sent_at >= now - 600_000
                && news[0].deletion is None && news[0].author_id != hex_lower(ours)
        }),
{
    lemma_newest(messages, Some(ours), now - RECENT_MS, k);
}

proof fn lemma_newest(messages: Seq<MessageView>, ours: Option<Seq<u8>>, cutoff: int, k: int)
    ensures
        newest_since(messages, ours, cutoff) is Some ==> ({
            let m = newest_since(messages, ours, cutoff)->0;
            messages.contains(m) && m.sent_at >= cutoff && m.deletion is None && !is_ours(m, ours)
        }),
        0 <= k < messages.len() && messages[k].sent_at >= cutoff && messages[k].deletion is None
            && !is_ours(messages[k], ours) ==> newest_since(messages, ours, cutoff) is Some
            && newest_since(messages, ours, cutoff)->0.sent_at >= messages[k].sent_at,
    decreases messages.len(),
{
    if messages.len() > 0 {
        let shorter = messages.drop_last();
        lemma_newest(shorter, ours, cutoff, k);
        if newest_since(messages, ours, cutoff) is Some {
            lemma_held_or_last(messages, newest_since(messages, ours, cutoff)->0);
        }
        if k < shorter.len() && k >= 0 {
            assert(shorter[k] == messages[k]);
        }
    }
}

/// What the service lists is shown, the later of two with one id, and of what it does not list
/// only what we sent in the last half minute and was not delivered yet.
pub proof fn law_service_decides_what_is_shown(
    board: ChatBoard,
    conversation: Seq<char>,
    messages: Seq<MessageView>,
    ours: Seq<u8>,
    now: int,
    id: Seq<char>,
)
    ensures
        ({
            let merge = board.merge_of(conversation, messages, Some(ours), now);
            let listed = exists|i: int|
                0 <= i < messages.len() && (#[trigger] messages[i]).message_id == id;
            &&& listed ==> merge.messages.contains_key(id) && messages.contains(merge.messages[id])
                && merge.messages[id].message_id == id
            &&& !listed && merge.messages.contains_key(id) ==> {
                &&& shown_of(board.timelines@, conversation) is Some
                &&& shown_of(board.timelines@, conversation)->0.contains(merge.messages[id])
                &&& merge.messages[id].author_id == hex_lower(ours)
                &&& merge.messages[id].sent_at >= now - 30_000
                &&& board.delivery@.contains_key(id)
                &&& board.delivery@[id].0 != DeliveryState::Delivered
            }
        }),
{
    let start = Merge { messages: message_map(messages), delivery: board.delivery@ };
    let existing = match shown_of(board.timelines@, conversation) {
        Some(timeline) => timeline,
        None => Seq::empty(),
    };
    let merge = merged(start, existing, Some(ours), now - OPTIMISTIC_MS);
    lemma_message_map(messages, id);
    if start.messages.contains_key(id) {
        law_listed_messages_are_shown(start, existing, Some(ours), now - OPTIMISTIC_MS, id);
    } else if merge.messages.contains_key(id) {
        law_only_recent_sends_outlive_the_service(
            start,
            existing,
            Some(ours),
            now - OPTIMISTIC_MS,
            id,
        );
    }
}

proof fn lemma_message_map(messages: Seq<MessageView>, id: Seq<char>)
    ensures
        message_map(messages).contains_key(id) <==> exists|i: int|
            0 <= i < messages.len() && (#[trigger] messages[i]).message_id == id,
        message_map(messages).contains_key(id) ==> messages.contains(message_map(messages)[id])
            && message_map(messages)[id].message_id == id,
    decreases messages.len(),
{
    if messages.len() > 0 {
        let shorter = messages.drop_last();
        lemma_message_map(shorter, id);
        assert(messages[messages.len() - 1] == messages.last());
        if message_map(shorter).contains_key(id) {
            let i = choose|i: int|
                0 <= i < shorter.len() && (#[trigger] shorter[i]).message_id == id;
            assert(messages[i] == shorter[i]);
        }
        if exists|i: int| 0 <= i < messages.len() && (#[trigger] messages[i]).message_id == id {
            let i = choose|i: int|
                0 <= i < messages.len() && (#[trigger] messages[i]).message_id == id;
            if i < shorter.len() {
                assert(shorter[i] == messages[i]);
            }
        }
        if message_map(messages).contains_key(id) {
            lemma_held_or_last(messages, message_map(messages)[id]);
        }
    }
}

/// The delivery of a message that is shown is followed as before.
pub proof fn law_delivery_of_shown_messages_is_followed(
    start: Merge,
    existing: Seq<MessageView>,
    ours: Option<Seq<u8>>,
    cutoff: int,
    id: Seq<char>,
)
    ensures
        ({
            let merge = merged(start, existing, ours, cutoff);
            &&& merge.delivery.contains_key(id) ==> start.delivery.contains_key(id)
                && merge.delivery[id] == start.delivery[id]
            &&& start.delivery.contains_key(id) && start.messages.contains_key(id)
                ==> merge.delivery.contains_key(id)
            &&& start.delivery.contains_key(id) && !(exists|i: int|
                0 <= i < existing.len() && (#[trigger] existing[i]).message_id == id)
                ==> merge.delivery.contains_key(id)
            &&& !merge.messages.contains_key(id) && (exists|i: int|
                0 <= i < existing.len() && (#[trigger] existing[i]).message_id == id)
                ==> !merge.delivery.contains_key(id)
        }),
    decreases existing.len(),
{
    if existing.len() > 0 {
        let shorter = existing.drop_last();
        law_delivery_of_shown_messages_is_followed(start, shorter, ours, cutoff, id);
        if start.messages.contains_key(id) {
            law_listed_messages_are_shown(start, shorter, ours, cutoff, id);
        }
        assert(existing[existing.len() - 1] == existing.last());
        if exists|i: int| 0 <= i < shorter.len() && (#[trigger] shorter[i]).message_id == id {
            let i = choose|i: int|
                0 <= i < shorter.len() && (#[trigger] shorter[i]).message_id == id;
            assert(existing[i] == shorter[i]);
        }
        if exists|i: int| 0 <= i < existing.len() && (#[trigger] existing[i]).message_id == id {
            let i = choose|i: int|
                0 <= i < existing.len() && (#[trigger] existing[i]).message_id == id;
            if i < shorter.len() {
                assert(shorter[i] == existing[i]);
            }
        }
    }
}

/// Deleting a message marks it, keeps its place and touches no other.
pub proof fn law_deleting_concerns_one_message(
    messages: Seq<MessageView>,
    id: Seq<char>,
    scope: DeleteScope,
    k: int,
)
    requires
        0 <= k < messages.len(),
    ensures
        ({
            let after = with_deletion(messages, id, Some(deletion_of(scope)));
            &&& after.len() == messages.len()
            &&& messages[k].message_id != id ==> after[k] == messages[k]
            &&& messages[k].message_id == id && (forall|j: int|
                0 <= j < k ==> (#[trigger] messages[j]).message_id != id) ==> after[k].deletion
                == Some(
                match scope {
                    DeleteScope::Local => MessageDeletion::Local,
                    DeleteScope::Everyone => MessageDeletion::Everyone,
                },
            ) && after[k] == (MessageView { deletion: after[k].deletion, ..messages[k] })
        }),
{
    lemma_place_of(messages, id);
}

/// Just those messages are shown that are not too old, and all of them where messages are kept.
pub proof fn law_old_messages_are_out_of_sight(
    messages: Seq<MessageView>,
    retention: RetentionPolicy,
    now: int,
    m: MessageView,
)
    ensures
        visible_in(messages, retention, now).contains(m) <==> messages.contains(m)
            && retention.shows(m.sent_at, now),
    decreases messages.len(),
{
    if messages.len() > 0 {
        let rest = visible_in(messages.drop_last(), retention, now);
        law_old_messages_are_out_of_sight(messages.drop_last(), retention, now, m);
        lemma_held_or_last(messages, m);
        lemma_held_after_push(rest, messages.last(), m);
    }
}

/// Taking an image out of what is being written leaves the others.
pub proof fn law_removed_drafts_are_gone(
    drafts: Seq<AttachmentView>,
    id: Seq<char>,
    draft: AttachmentView,
)
    ensures
        without_draft(drafts, id).contains(draft) <==> drafts.contains(draft) && draft.id != id,
    decreases drafts.len(),
{
    if drafts.len() > 0 {
        let rest = without_draft(drafts.drop_last(), id);
        law_removed_drafts_are_gone(drafts.drop_last(), id, draft);
        lemma_held_or_last(drafts, draft);
        lemma_held_after_push(rest, drafts.last(), draft);
    }
}

/// A message that was deleted shows nothing of what was written, and says who deleted it; any
/// other shows what was written.
pub proof fn law_deleted_messages_show_nothing(m: MessageView, body: Seq<char>)
    ensures
        m.deletion is Some ==> body_shown(m) == body_shown(MessageView { body, ..m }),
        m.deletion is None ==> body_shown(m) == m.body,
        m.deletion == Some(MessageDeletion::Local) ==> body_shown(m) == "You deleted this message"@,
        m.deletion == Some(MessageDeletion::Everyone) ==> body_shown(m)
            == "This message was deleted"@,
{
}

/// Our own messages are shown as ours, and those of others under the name that they go by.
pub proof fn law_messages_show_their_author(
    m: MessageView,
    ours: Seq<u8>,
    friends: Seq<FriendView>,
    key: Seq<u8>,
)
    ensures
        m.author_id == hex_lower(ours) ==> author_text(m, Some(ours), friends) == "You"@,
        m.author_id != hex_lower(ours) && parsed_key(m.author_id) == Ok::<Seq<u8>, Seq<char>>(key)
            ==> author_text(m, Some(ours), friends) == display_name_of(friends, key),
        m.author_id != hex_lower(ours) && parsed_key(m.author_id) is Err ==> author_text(
            m,
            Some(ours),
            friends,
        ) == "Unknown peer"@,
        parsed_key(m.author_id) == Ok::<Seq<u8>, Seq<char>>(key) ==> announced_author(
            m.author_id,
            friends,
        ) == display_name_of(friends, key),
{
}

/// What is announced of a message is the beginning of what was written, at most 180 characters
/// of it, or how many images it brings.
pub proof fn law_announcements_are_short(m: MessageView)
    ensures
        trimmed(m.body).len() > 0 ==> announced_body(m).len() <= 180,
        0 < trimmed(m.body).len() <= 180 ==> announced_body(m) == trimmed(m.body),
        trimmed(m.body).len() == 0 && m.attachments.len() == 1 ==> announced_body(m) == "Image"@,
        trimmed(m.body).len() == 0 && m.attachments.len() != 1 ==> announced_body(m) == decimal(
            m.attachments.len(),
        ) + " images"@,
{
}

/// A message begins a group exactly if it is the first, of another author than the one before,
/// or of another minute.
pub proof fn law_groups_share_author_and_minute(messages: Seq<MessageView>, i: int)
    requires
        0 < i < messages.len(),
    ensures
        begins_group(messages, 0),
        messages[i - 1].author_id != messages[i].author_id ==> begins_group(messages, i),
        messages[i - 1].author_id == messages[i].author_id && messages[i].sent_at
            - messages[i - 1].sent_at >= 60_000 ==> begins_group(messages, i),
        messages[i - 1].author_id == messages[i].author_id && messages[i - 1].sent_at
            == messages[i].sent_at ==> !begins_group(messages, i),
        messages[i - 1].author_id == messages[i].author_id && messages[i].sent_at % 60_000 >= (
        messages[i].sent_at - messages[i - 1].sent_at) >= 0 ==> !begins_group(messages, i),
{
}

/// Whatever is written, the composer shows from one to eight rows, and one more for each line
/// that is begun.
pub proof fn law_composer_rows_are_bounded(s: Seq<char>, columns: int, begun: int)
    requires
        columns >= 1,
        begun >= 0,
    ensures
        1 <= row_limit(rows_from(s, columns, begun)) <= 8,
        rows_from(s, columns, begun) >= 1,
        rows_from(seq!['\n'] + s, columns, begun) >= rows_from(s, columns, 0) + 1,
    decreases s.len(),
{
    assert(rows_for(begun, columns) >= 1) by {
        lemma_rows_for(begun, columns);
    }
    if s.len() > 0 {
        law_composer_rows_are_bounded(
            s.drop_first(),
            columns,
            if s[0] == '\n' {
                0
            } else {
                begun + 1
            },
        );
    }
    assert((seq!['\n'] + s).drop_first() =~= s);
}

proof fn lemma_rows_for(chars: int, columns: int)
    requires
        columns >= 1,
        chars >= 0,
    ensures
        rows_for(chars, columns) >= 1,
{
    let most = if chars > 1 {
        chars
    } else {
        1
    };
    vstd::arithmetic::div_mod::lemma_div_is_ordered(columns, most + columns - 1, columns);
    vstd::arithmetic::div_mod::lemma_div_by_self(columns);
}

/// What is said of a delivery is what the service told of it, if anything, and nothing once the
/// message has arrived.
pub proof fn law_delivery_is_told_as_it_stands(state: DeliveryState, detail: Seq<char>)
    ensures
        tip_of(state, Some(detail)) is None <==> state == DeliveryState::Delivered,
        state == DeliveryState::Retrying || state == DeliveryState::Queued || state
            == DeliveryState::Failed ==> tip_of(state, Some(detail)) == Some(detail),
        tip_of(state, None) is None <==> state == DeliveryState::Delivered,
{
}

} // verus!
