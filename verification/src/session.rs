//! What the events of the service do to all that is shown.
use vstd::prelude::*;
use crate::calls::{CallDesk, CallEffect, CallState, Command, DeskView, FrameShape};
use crate::chat_board::{lists_all, news_in, shown_of, ChatBoard};
use crate::chat_view::{announced_author, announced_body, message_card};
use crate::client_status::{Availability, GroupCallAnnouncement};
use crate::contacts::{
    by_name, law_contacts_are_kept, law_fixture_peers_become_contacts, with_fixtures, Contacts,
};
use crate::conversation::ChatConversation;
use crate::delivery::DeliveryState;
use crate::group_calls::{with_seen, GroupCalls};
use crate::message::{
    opt_text, AttachmentView, ChatAttachment, ChatMessage, MessageView,
};
use crate::node::{keys_of, NodeId};
use crate::notifications::{
    message_title, notice_spec, NotificationAction, NotificationKind, NotificationSpec,
};
use crate::roster::opt_key;
use crate::text::same_text;
use crate::timeline::{in_order, message_views};
use crate::window::AppMode;

verus! {

// ---------------------------------------------------------------------------
// Attachments by their bytes
// ---------------------------------------------------------------------------

/// The first attachment of a list with these bytes.
pub open spec fn attached_in(list: Seq<AttachmentView>, hash: Seq<char>) -> Option<AttachmentView>
    decreases list.len(),
{
    if list.len() == 0 {
        None
    } else {
        match attached_in(list.drop_last(), hash) {
            Some(found) => Some(found),
            None => if list.last().hash == hash {
                Some(list.last())
            } else {
                None
            },
        }
    }
}

/// The first attachment of a timeline with these bytes.
pub open spec fn attached_to(messages: Seq<MessageView>, hash: Seq<char>) -> Option<AttachmentView>
    decreases messages.len(),
{
    if messages.len() == 0 {
        None
    } else {
        match attached_to(messages.drop_last(), hash) {
            Some(found) => Some(found),
            None => attached_in(messages.last().attachments, hash),
        }
    }
}

/// The first attachment of all timelines with these bytes.
pub open spec fn attached_anywhere(
    timelines: Seq<(String, Vec<ChatMessage>)>,
    hash: Seq<char>,
) -> Option<AttachmentView>
    decreases timelines.len(),
{
    if timelines.len() == 0 {
        None
    } else {
        match attached_anywhere(timelines.drop_last(), hash) {
            Some(found) => Some(found),
            None => attached_to(message_views(timelines.last().1@), hash),
        }
    }
}

/// The contents of an attachment that may be missing.
pub open spec fn opt_attachment(a: Option<ChatAttachment>) -> Option<AttachmentView> {
    match a {
        Some(a) => Some(a@),
        None => None,
    }
}

fn find_in_message(message: &ChatMessage, hash: &str) -> (r: Option<ChatAttachment>)
    ensures
        opt_attachment(r) == attached_in(message@.attachments, hash@),
{
    let ghost all = message@.attachments;
    let mut found: Option<ChatAttachment> = None;
    let mut i: usize = 0;
    assert(all.take(0) =~= Seq::empty());
    while i < message.attachments.len()
        invariant
            0 <= i <= message.attachments@.len(),
            all == message@.attachments,
            all.len() == message.attachments@.len(),
            forall|j: int| 0 <= j < all.len() ==> #[trigger] all[j] == message.attachments@[j]@,
            opt_attachment(found) == attached_in(all.take(i as int), hash@),
        decreases message.attachments@.len() - i,
    {
        assert(all.take(i as int + 1).drop_last() =~= all.take(i as int));
        assert(all.take(i as int + 1).last() == all[i as int]);
        if found.is_none() && same_text(message.attachments[i].hash.as_str(), hash) {
            found = Some(message.attachments[i].clone());
        }
        i += 1;
    }
    assert(all.take(all.len() as int) =~= all);
    found
}

fn find_in_timeline(messages: &Vec<ChatMessage>, hash: &str) -> (r: Option<ChatAttachment>)
    ensures
        opt_attachment(r) == attached_to(message_views(messages@), hash@),
{
    let ghost all = message_views(messages@);
    let mut found: Option<ChatAttachment> = None;
    let mut i: usize = 0;
    assert(all.take(0) =~= Seq::empty());
    while i < messages.len()
        invariant
            0 <= i <= messages@.len(),
            all == message_views(messages@),
            opt_attachment(found) == attached_to(all.take(i as int), hash@),
        decreases messages@.len() - i,
    {
        assert(all.take(i as int + 1).drop_last() =~= all.take(i as int));
        assert(all.take(i as int + 1).last() == messages@[i as int]@);
        if found.is_none() {
            found = find_in_message(&messages[i], hash);
        }
        i += 1;
    }
    assert(all.take(all.len() as int) =~= all);
    found
}

impl ChatBoard {
    /// Where bytes belong that have come in: the first attachment that names them. They are no
    /// longer asked for.
    pub fn attachment_arrived(&mut self, hash: &String) -> (r: Option<ChatAttachment>)
        requires
            old(self).wf(),
        ensures
            final(self).wf(),
            opt_attachment(r) == attached_anywhere(old(self).timelines.entries@, hash@),
            final(self).requests@ == old(self).requests@.remove(hash@),
            final(self).conversations == old(self).conversations,
            final(self).timelines == old(self).timelines,
            final(self).delivery == old(self).delivery,
            final(self).selected == old(self).selected,
            final(self).unseen == old(self).unseen,
            final(self).older == old(self).older,
            final(self).ready == old(self).ready,
    {
        self.requests.remove(hash);
        let ghost all = self.timelines.entries@;
        let mut found: Option<ChatAttachment> = None;
        let mut i: usize = 0;
        assert(all.take(0) =~= Seq::empty());
        while i < self.timelines.entries.len()
            invariant
                0 <= i <= self.timelines.entries@.len(),
                all == self.timelines.entries@,
                opt_attachment(found) == attached_anywhere(all.take(i as int), hash@),
            decreases self.timelines.entries@.len() - i,
        {
            assert(all.take(i as int + 1).drop_last() =~= all.take(i as int));
            assert(all.take(i as int + 1).last() == all[i as int]);
            if found.is_none() {
                found = find_in_timeline(&self.timelines.entries[i].1, hash.as_str());
            }
            i += 1;
        }
        assert(all.take(all.len() as int) =~= all);
        found
    }
}

// ---------------------------------------------------------------------------
// Events
// ---------------------------------------------------------------------------

/// What the service tells.
pub enum Event {
    /// We are reachable under this key. In a development call the peers are known that are to be
    /// called and that are to be contacts.
    EndpointBound { node_id: NodeId, call_peers: Vec<NodeId>, fixture_peers: Vec<NodeId> },
    ClientStatus { peer: NodeId, availability: Availability, calls: Vec<GroupCallAnnouncement> },
    GroupCallEntered(GroupCallAnnouncement),
    InitialChatLoaded,
    SetCallState(NodeId, CallState),
    VideoStreamAccepted { node_id: NodeId, generation: u64 },
    VideoFrame { node_id: NodeId, generation: u64, shape: FrameShape },
    VideoStreamEnded { node_id: NodeId, generation: u64 },
    SharingToggled { active: bool, system_audio: bool },
    SystemAudioToggled(bool),
    SystemAudioFailed(String),
    SharingFailed(String),
    PreviewFrame { width: u32, height: u32, has_data: bool },
    Conversation { conversation: ChatConversation, messages: Vec<ChatMessage>, has_more: bool },
    AttachmentData { hash: String },
    Delivery { message_id: String, state: DeliveryState, detail: Option<String> },
    ChatError(String),
    WorkerFailed(String),
}

/// What is to be done on an event, apart from what changes here.
pub struct Reaction {
    /// What calls ask for, in this order.
    pub effects: Vec<CallEffect>,
    /// Cards to be shown, in this order.
    pub cards: Vec<NotificationSpec>,
    /// Whether the contacts are to be stored.
    pub save_friends: bool,
    /// Whether the service is to be told whom we keep in touch with.
    pub sync_friends: bool,
    /// Whether the calls that were seen are to be stored.
    pub save_seen: bool,
    /// Whether a picture is to be taken over.
    pub take_picture: bool,
    /// The attachment that bytes belong to.
    pub attachment: Option<ChatAttachment>,
}

impl Reaction {
    /// Nothing is to be done.
    pub open spec fn is_nothing(self) -> bool {
        &&& self.effects@.len() == 0
        &&& self.is_quiet()
    }

    /// Nothing but what calls ask for.
    pub open spec fn is_quiet(self) -> bool {
        &&& self.cards@.len() == 0
        &&& !self.save_friends
        &&& !self.sync_friends
        &&& !self.save_seen
        &&& !self.take_picture
        &&& self.attachment is None
    }

    /// Nothing but a card that tells something.
    pub open spec fn only_tells(
        self,
        kind: NotificationKind,
        key: Seq<char>,
        title: Seq<char>,
        body: Seq<char>,
    ) -> bool {
        &&& self.effects@.len() == 0
        &&& self.cards@.len() == 1
        &&& is_notice(self.cards@[0], kind, key, title, body)
        &&& !self.save_friends
        &&& !self.sync_friends
        &&& !self.save_seen
        &&& !self.take_picture
        &&& self.attachment is None
    }

    fn nothing() -> (r: Reaction)
        ensures
            r.is_nothing(),
    {
        Reaction {
            effects: Vec::new(),
            cards: Vec::new(),
            save_friends: false,
            sync_friends: false,
            save_seen: false,
            take_picture: false,
            attachment: None,
        }
    }

    fn card(card: NotificationSpec) -> (r: Reaction)
        ensures
            r.effects@.len() == 0,
            r.cards@ == seq![card],
            !r.save_friends,
            !r.sync_friends,
            !r.save_seen,
            !r.take_picture,
            r.attachment is None,
    {
        let mut r = Reaction::nothing();
        r.cards.push(card);
        r
    }
}

/// A card that only tells something.
pub open spec fn is_notice(
    card: NotificationSpec,
    kind: NotificationKind,
    key: Seq<char>,
    title: Seq<char>,
    body: Seq<char>,
) -> bool {
    &&& opt_text(card.group_key) == Some(key)
    &&& card.kind == kind
    &&& card.title@ == title
    &&& card.body@ == body
    &&& card.action is None
    &&& card.buttons@.len() == 0
}

/// The card that announces a message.
pub open spec fn is_announcement(
    card: NotificationSpec,
    conversation: ChatConversation,
    message: MessageView,
    contacts: Contacts,
) -> bool {
    &&& opt_text(card.group_key) == Some("conversation:"@ + conversation@.id)
    &&& card.kind == NotificationKind::Message
    &&& card.title@ == message_title(
        announced_author(message.author_id, contacts@),
        conversation@.title,
    )
    &&& card.body@ == announced_body(message)
    &&& card.action matches Some(NotificationAction::OpenConversation(id)) && id@
        == conversation@.id
    &&& card.buttons@.len() == 0
}

/// All that events change.
pub struct Session {
    pub our_node_id: Option<NodeId>,
    pub contacts: Contacts,
    pub desk: CallDesk,
    pub groups: GroupCalls,
    pub board: ChatBoard,
    pub mode: AppMode,
    pub show_settings: bool,
    pub service_error: Option<String>,
    pub chat_error: Option<String>,
}

impl Session {
    /// All parts are in order.
    pub open spec fn wf(self) -> bool {
        &&& self.desk.wf()
        &&& self.groups.wf()
        &&& self.board.wf()
    }

    /// Nothing but calls changed.
    pub open spec fn changed_desk(self, before: Session, desk: DeskView) -> bool {
        &&& self.desk@ == desk
        &&& self == (Session { desk: self.desk, ..before })
    }

    /// Whether the messages are in sight.
    pub open spec fn messages_visible(self, focused: bool) -> bool {
        focused && self.mode == AppMode::Text && !self.show_settings
    }

    /// What we being reachable under a key does.
    pub open spec fn bound(
        self,
        before: Session,
        node_id: NodeId,
        call_peers: Seq<NodeId>,
        fixture_peers: Seq<NodeId>,
        r: Reaction,
    ) -> bool {
        let all = with_fixtures(before.contacts@, keys_of(fixture_peers));
        let changed = all.len() > before.contacts@.len();
        &&& self == (Session {
            our_node_id: Some(node_id),
            service_error: None,
            contacts: self.contacts,
            ..before
        })
        &&& self.contacts@ == if changed {
            by_name(all)
        } else {
            before.contacts@
        }
        &&& r.effects@ == Seq::new(
            call_peers.len(),
            |i: int| CallEffect::Send(Command::Call { node_id: call_peers[i] }),
        )
        &&& r.save_friends == changed
        &&& r.sync_friends == changed
        &&& r.cards@.len() == 0
        &&& !r.save_seen
        &&& !r.take_picture
        &&& r.attachment is None
    }

    /// What a report of a peer does.
    pub open spec fn reported(
        self,
        before: Session,
        peer: NodeId,
        availability: Availability,
        calls: Vec<GroupCallAnnouncement>,
    ) -> bool {
        &&& self == (Session { groups: self.groups, ..before })
        &&& self.groups.reports@ == if availability == Availability::Online {
            before.groups.reports@.insert(peer@, calls)
        } else {
            before.groups.reports@.remove(peer@)
        }
        &&& self.groups.status@ == before.groups.status@.insert(peer@, availability)
        &&& self.groups.local == before.groups.local
        &&& self.groups.seen == before.groups.seen
    }

    /// What entering a group call does.
    pub open spec fn entered(
        self,
        before: Session,
        call: GroupCallAnnouncement,
        now: i64,
        r: Reaction,
    ) -> bool {
        &&& self == (Session { groups: self.groups, mode: AppMode::Calls, ..before })
        &&& self.groups.seen@ == with_seen(before.groups.seen@, call@.call_id, now)
        &&& self.groups.local == Some(call)
        &&& self.groups.reports == before.groups.reports
        &&& self.groups.status == before.groups.status
        &&& r.save_seen
        &&& r.effects@.len() == 0
        &&& r.cards@.len() == 0
        &&& !r.save_friends
        &&& !r.sync_friends
        &&& !r.take_picture
        &&& r.attachment is None
    }

    /// What a conversation with its messages does.
    pub open spec fn listed(
        self,
        before: Session,
        conversation: ChatConversation,
        messages: Seq<ChatMessage>,
        has_more: bool,
        focused: bool,
        now: i64,
        r: Reaction,
    ) -> bool {
        let id = conversation@.id;
        let listed = message_views(messages);
        let ours = opt_key(before.our_node_id);
        let open = before.board.is_open(before.messages_visible(focused), id);
        let news = news_in(
            shown_of(before.board.timelines@, id),
            before.board.ready,
            listed,
            ours,
            now as int,
        );
        let merge = before.board.merge_of(id, listed, ours, now as int);
        let announced = if open {
            Seq::empty()
        } else {
            news
        };
        &&& self == (Session { board: self.board, ..before })
        &&& self.board.conversations@ == before.board.conversations@.insert(id, conversation)
        &&& self.board.timelines@.contains_key(id)
        &&& lists_all(message_views(self.board.timelines@[id]@), merge.messages)
        &&& self.board.timelines@.remove(id) == before.board.timelines@.remove(id)
        &&& self.board.delivery@ == merge.delivery
        &&& self.board.older@ == if has_more {
            before.board.older@.insert(id, ())
        } else {
            before.board.older@.remove(id)
        }
        &&& opt_text(self.board.selected) == match opt_text(before.board.selected) {
            Some(selected) => Some(selected),
            None => Some(id),
        }
        &&& self.board.unseen@ == if announced.len() > 0 {
            before.board.unseen@.insert(id, ())
        } else {
            before.board.unseen@
        }
        &&& self.board.requests == before.board.requests
        &&& self.board.ready == before.board.ready
        &&& r.sync_friends == !before.board.conversations@.contains_key(id)
        &&& r.cards@.len() == announced.len()
        &&& forall|i: int|
            0 <= i < announced.len() ==> is_announcement(
                #[trigger] r.cards@[i],
                conversation,
                announced[i],
                before.contacts,
            )
        &&& r.effects@.len() == 0
        &&& !r.save_friends
        &&& !r.save_seen
        &&& !r.take_picture
        &&& r.attachment is None
    }

    fn endpoint_bound(
        &mut self,
        node_id: NodeId,
        call_peers: Vec<NodeId>,
        fixture_peers: Vec<NodeId>,
    ) -> (r: Reaction)
        requires
            old(self).wf(),
        ensures
            final(self).wf(),
            final(self).bound(*old(self), node_id, call_peers@, fixture_peers@, r),
    {
        self.our_node_id = Some(node_id);
        self.service_error = None;
        let changed = self.contacts.add_fixture_peers(&fixture_peers);
        let mut r = Reaction::nothing();
        r.save_friends = changed;
        r.sync_friends = changed;
        let mut effects: Vec<CallEffect> = Vec::new();
        let mut i: usize = 0;
        while i < call_peers.len()
            invariant
                0 <= i <= call_peers@.len(),
                effects@.len() == i,
                forall|j: int|
                    0 <= j < i ==> #[trigger] effects@[j] == CallEffect::Send(
                        Command::Call { node_id: call_peers@[j] },
                    ),
            decreases call_peers@.len() - i,
        {
            effects.push(CallEffect::Send(Command::Call { node_id: call_peers[i] }));
            i += 1;
        }
        r.effects = effects;
        assert(r.effects@ =~= Seq::new(
            call_peers@.len(),
            |i: int| CallEffect::Send(Command::Call { node_id: call_peers@[i] }),
        ));
        r
    }

    fn conversation(
        &mut self,
        conversation: ChatConversation,
        messages: Vec<ChatMessage>,
        has_more: bool,
        focused: bool,
        now: i64,
    ) -> (r: Reaction)
        requires
            old(self).wf(),
        ensures
            final(self).wf(),
            final(self).listed(*old(self), conversation, messages@, has_more, focused, now, r),
    {
        let visible = focused && self.mode == AppMode::Text && !self.show_settings;
        let id: String = conversation.id.clone();
        let title: String = conversation.title.clone();
        let ours = self.our_node_id;
        let news = self.board.apply_conversation(
            conversation,
            messages,
            has_more,
            visible,
            &ours,
            now,
        );
        let mut r = Reaction::nothing();
        r.sync_friends = news.is_new;
        let ghost all = message_views(news.announce@);
        let mut cards: Vec<NotificationSpec> = Vec::new();
        let mut i: usize = 0;
        while i < news.announce.len()
            invariant
                0 <= i <= news.announce@.len(),
                all == message_views(news.announce@),
                id@ == conversation@.id,
                title@ == conversation@.title,
                self.contacts == old(self).contacts,
                cards@.len() == i,
                forall|j: int|
                    0 <= j < i ==> is_announcement(
                        #[trigger] cards@[j],
                        conversation,
                        all[j],
                        old(self).contacts,
                    ),
            decreases news.announce@.len() - i,
        {
            let card = message_card(
                id.clone(),
                title.clone(),
                &news.announce[i],
                &self.contacts,
            );
            assert(all[i as int] == news.announce@[i as int]@);
            assert(is_announcement(card, conversation, all[i as int], old(self).contacts));
            cards.push(card);
            i += 1;
        }
        r.cards = cards;
        r
    }

    fn tell_error(key: &str, title: &str, body: String) -> (r: Reaction)
        ensures
            r.only_tells(NotificationKind::Error, key@, title@, body@),
    {
        Reaction::card(
            notice_spec(NotificationKind::Error, key.to_owned(), title.to_owned(), body),
        )
    }

    /// Takes an event in.
    pub fn process_event(&mut self, event: Event, focused: bool, now: i64) -> (r: Reaction)
        requires
            old(self).wf(),
        ensures
            final(self).wf(),
            match event {
                Event::EndpointBound { node_id, call_peers, fixture_peers } => final(self).bound(
                    *old(self),
                    node_id,
                    call_peers@,
                    fixture_peers@,
                    r,
                ),
                Event::ClientStatus { peer, availability, calls } => final(self).reported(
                    *old(self),
                    peer,
                    availability,
                    calls,
                ) && r.is_nothing(),
                Event::GroupCallEntered(call) => final(self).entered(*old(self), call, now, r),
                Event::InitialChatLoaded => *final(self) == (Session {
                    board: ChatBoard { ready: true, ..old(self).board },
                    ..*old(self)
                }) && r.is_nothing(),
                Event::SetCallState(node_id, state) => final(self).changed_desk(
                    *old(self),
                    old(self).desk@.with_state(node_id@, state),
                ) && r.effects@ == old(self).desk@.state_effects(node_id, state) && r.is_quiet(),
                Event::VideoStreamAccepted { node_id, generation } => final(self).changed_desk(
                    *old(self),
                    old(self).desk@.accepted(node_id@, generation),
                ) && r.is_nothing(),
                Event::VideoFrame { node_id, generation, shape } => final(self).changed_desk(
                    *old(self),
                    old(self).desk@.shown(node_id@, generation, shape),
                ) && r.take_picture == old(self).desk@.takes_frame(node_id@, generation)
                    && (Reaction { take_picture: false, ..r }).is_nothing(),
                Event::VideoStreamEnded { node_id, generation } => final(self).changed_desk(
                    *old(self),
                    old(self).desk@.stream_over(node_id@, generation),
                ) && r.is_nothing(),
                Event::SharingToggled { active, system_audio } => final(self).changed_desk(
                    *old(self),
                    old(self).desk@.sharing_set(active, system_audio),
                ) && r.only_tells(
                    if active {
                        NotificationKind::Success
                    } else {
                        NotificationKind::Info
                    },
                    "screen-sharing"@,
                    if active && system_audio {
                        "Sharing screen and sound"@
                    } else if active {
                        "Screen sharing started"@
                    } else {
                        "Screen sharing stopped"@
                    },
                    Seq::empty(),
                ),
                Event::SystemAudioToggled(active) => final(self).changed_desk(
                    *old(self),
                    (DeskView {
                        system_audio_active: active && old(self).desk@.sharing_active,
                        ..old(self).desk@
                    }),
                ) && r.is_nothing(),
                Event::SystemAudioFailed(message) => final(self).changed_desk(
                    *old(self),
                    (DeskView { system_audio_active: false, ..old(self).desk@ }),
                ) && r.only_tells(
                    NotificationKind::Error,
                    "system-audio-error"@,
                    "Could not share computer sound"@,
                    message@,
                ),
                Event::SharingFailed(message) => final(self).changed_desk(
                    *old(self),
                    (DeskView {
                        sharing_active: false,
                        system_audio_active: false,
                        preview: None,
                        capture_error: Some(message@),
                        ..old(self).desk@
                    }),
                ) && r.only_tells(
                    NotificationKind::Error,
                    "screen-sharing-error"@,
                    "Could not share your screen"@,
                    message@,
                ),
                Event::PreviewFrame { width, height, has_data } => final(self).changed_desk(
                    *old(self),
                    old(self).desk@.previewed(width, height, has_data),
                ) && r.take_picture == old(self).desk@.sharing_active
                    && (Reaction { take_picture: false, ..r }).is_nothing(),
                Event::Conversation { conversation, messages, has_more } => final(self).listed(
                    *old(self),
                    conversation,
                    messages@,
                    has_more,
                    focused,
                    now,
                    r,
                ),
                Event::AttachmentData { hash } => *final(self) == (Session {
                    board: ChatBoard {
                        requests: final(self).board.requests,
                        ..old(self).board
                    },
                    ..*old(self)
                }) && final(self).board.requests@ == old(self).board.requests@.remove(hash@)
                    && opt_attachment(r.attachment) == attached_anywhere(
                    old(self).board.timelines.entries@,
                    hash@,
                ) && (Reaction { attachment: None, ..r }).is_nothing(),
                Event::Delivery { message_id, state, detail } => *final(self) == (Session {
                    board: ChatBoard {
                        delivery: final(self).board.delivery,
                        ..old(self).board
                    },
                    ..*old(self)
                }) && final(self).board.delivery@ == old(self).board.delivery@.insert(
                    message_id@,
                    (state, detail),
                ) && r.is_nothing(),
                Event::ChatError(error) => opt_text(final(self).chat_error) == Some(error@)
                    && *final(self) == (Session {
                    chat_error: final(self).chat_error,
                    ..*old(self)
                }) && r.only_tells(
                    NotificationKind::Error,
                    "chat-error"@,
                    "Messages need attention"@,
                    error@,
                ),
                Event::WorkerFailed(error) => opt_text(final(self).service_error) == Some(error@)
                    && *final(self) == (Session {
                    service_error: final(self).service_error,
                    ..*old(self)
                }) && r.only_tells(
                    NotificationKind::Error,
                    "wire-worker-error"@,
                    "Wire is unavailable"@,
                    error@,
                ),
            },
    {
        match event {
            Event::EndpointBound { node_id, call_peers, fixture_peers } => self.endpoint_bound(
                node_id,
                call_peers,
                fixture_peers,
            ),
            Event::ClientStatus { peer, availability, calls } => {
                self.groups.client_status(peer, availability, calls);
                Reaction::nothing()
            },
            Event::GroupCallEntered(call) => {
                self.groups.mark_group_call_seen(call.call_id.clone(), now);
                self.groups.local = Some(call);
                self.mode = AppMode::Calls;
                let mut r = Reaction::nothing();
                r.save_seen = true;
                r
            },
            Event::InitialChatLoaded => {
                self.board.ready = true;
                Reaction::nothing()
            },
            Event::SetCallState(node_id, state) => {
                let effects = self.desk.set_call_state(node_id, state);
                let mut r = Reaction::nothing();
                r.effects = effects;
                r
            },
            Event::VideoStreamAccepted { node_id, generation } => {
                self.desk.video_stream_accepted(node_id, generation);
                Reaction::nothing()
            },
            Event::VideoFrame { node_id, generation, shape } => {
                let taken = self.desk.video_frame(node_id, generation, shape);
                let mut r = Reaction::nothing();
                r.take_picture = taken;
                r
            },
            Event::VideoStreamEnded { node_id, generation } => {
                self.desk.video_stream_ended(node_id, generation);
                Reaction::nothing()
            },
            Event::SharingToggled { active, system_audio } => Reaction::card(
                self.desk.sharing_toggled(active, system_audio),
            ),
            Event::SystemAudioToggled(active) => {
                self.desk.system_audio_toggled(active);
                Reaction::nothing()
            },
            Event::SystemAudioFailed(message) => Reaction::card(
                self.desk.system_audio_failed(message),
            ),
            Event::SharingFailed(message) => Reaction::card(self.desk.sharing_failed(message)),
            Event::PreviewFrame { width, height, has_data } => {
                let mut r = Reaction::nothing();
                r.take_picture = self.desk.sharing_active;
                self.desk.preview_frame(width, height, has_data);
                r
            },
            Event::Conversation { conversation, messages, has_more } => self.conversation(
                conversation,
                messages,
                has_more,
                focused,
                now,
            ),
            Event::AttachmentData { hash } => {
                let attachment = self.board.attachment_arrived(&hash);
                let mut r = Reaction::nothing();
                r.attachment = attachment;
                r
            },
            Event::Delivery { message_id, state, detail } => {
                self.board.apply_delivery(message_id, state, detail);
                Reaction::nothing()
            },
            Event::ChatError(error) => {
                self.chat_error = Some(error.clone());
                Session::tell_error("chat-error", "Messages need attention", error)
            },
            Event::WorkerFailed(error) => {
                self.service_error = Some(error.clone());
                Session::tell_error("wire-worker-error", "Wire is unavailable", error)
            },
        }
    }
}

proof fn lemma_attached_in(list: Seq<AttachmentView>, hash: Seq<char>)
    ensures
        attached_in(list, hash) is Some <==> exists|i: int|
            0 <= i < list.len() && (#[trigger] list[i]).hash == hash,
        attached_in(list, hash) is Some ==> attached_in(list, hash)->0.hash == hash
            && list.contains(attached_in(list, hash)->0),
    decreases list.len(),
{
    if list.len() > 0 {
        let shorter = list.drop_last();
        lemma_attached_in(shorter, hash);
        assert(list[list.len() - 1] == list.last());
        if attached_in(shorter, hash) is Some {
            let found = attached_in(shorter, hash)->0;
            let i = choose|i: int| 0 <= i < shorter.len() && shorter[i] == found;
            assert(list[i] == found);
        }
        if exists|i: int| 0 <= i < list.len() && (#[trigger] list[i]).hash == hash {
            let i = choose|i: int| 0 <= i < list.len() && (#[trigger] list[i]).hash == hash;
            if i < shorter.len() {
                assert(shorter[i] == list[i]);
            }
        }
    }
}

/// Bytes that come in are taken as those of an attachment that names them, if a message of the
/// timeline has one.
pub proof fn law_bytes_find_their_attachment(
    messages: Seq<MessageView>,
    hash: Seq<char>,
    k: int,
    i: int,
)
    ensures
        0 <= k < messages.len() && 0 <= i < messages[k].attachments.len()
            && messages[k].attachments[i].hash == hash ==> attached_to(messages, hash) is Some,
        attached_to(messages, hash) is Some ==> attached_to(messages, hash)->0.hash == hash
            && exists|m: int|
            0 <= m < messages.len() && (#[trigger] messages[m]).attachments.contains(
                attached_to(messages, hash)->0,
            ),
    decreases messages.len(),
{
    if messages.len() > 0 {
        let shorter = messages.drop_last();
        law_bytes_find_their_attachment(shorter, hash, k, i);
        lemma_attached_in(messages.last().attachments, hash);
        assert(messages[messages.len() - 1] == messages.last());
        if 0 <= k < shorter.len() {
            assert(shorter[k] == messages[k]);
        }
        if attached_to(shorter, hash) is Some {
            let m = choose|m: int|
                0 <= m < shorter.len() && (#[trigger] shorter[m]).attachments.contains(
                    attached_to(shorter, hash)->0,
                );
            assert(messages[m] == shorter[m]);
        }
    }
}

/// A message in the conversation that is in sight is not announced; any other new message gets a
/// card of its own, and the conversation a mark.
pub proof fn law_messages_in_sight_are_not_announced(
    before: Session,
    after: Session,
    conversation: ChatConversation,
    messages: Seq<ChatMessage>,
    has_more: bool,
    focused: bool,
    now: i64,
    r: Reaction,
)
    requires
        after.listed(before, conversation, messages, has_more, focused, now, r),
    ensures
        ({
            let id = conversation@.id;
            let in_sight = focused && before.mode == AppMode::Text && !before.show_settings
                && before.board.selected is Some && before.board.selected->0@ == id;
            let news = news_in(
                shown_of(before.board.timelines@, id),
                before.board.ready,
                message_views(messages),
                opt_key(before.our_node_id),
                now as int,
            );
            &&& in_sight ==> r.cards@.len() == 0 && after.board.unseen@ == before.board.unseen@
            &&& !in_sight ==> r.cards@.len() == news.len()
            &&& !in_sight && news.len() > 0 ==> after.board.unseen@.contains_key(id)
            &&& news.len() == 0 ==> after.board.unseen@ == before.board.unseen@
            &&& forall|other: Seq<char>|
                other != id ==> (#[trigger] after.board.unseen@.contains_key(other)
                    <==> before.board.unseen@.contains_key(other))
        }),
{
}

/// A conversation that the service has sent is known from then on, and its messages are shown
/// once each, the earlier ones first. Older ones can be asked for where there are any. It is
/// selected only where nothing was, and no other conversation is touched.
pub proof fn law_listed_conversations_are_shown(
    before: Session,
    after: Session,
    conversation: ChatConversation,
    messages: Seq<ChatMessage>,
    has_more: bool,
    focused: bool,
    now: i64,
    r: Reaction,
    other: Seq<char>,
)
    requires
        after.listed(before, conversation, messages, has_more, focused, now, r),
        other != conversation@.id,
    ensures
        ({
            let id = conversation@.id;
            let shown = message_views(after.board.timelines@[id]@);
            &&& after.board.conversations@.contains_key(id) && after.board.conversations@[id]
                == conversation
            &&& after.board.timelines@.contains_key(id)
            &&& shown.no_duplicates()
            &&& forall|i: int, j: int|
                0 <= i < j < shown.len() ==> (#[trigger] shown[i]).sent_at <= (
                #[trigger] shown[j]).sent_at
            &&& after.board.older@.contains_key(id) <==> has_more
            &&& before.board.selected is Some ==> opt_text(after.board.selected) == opt_text(
                before.board.selected,
            )
            &&& before.board.selected is None ==> opt_text(after.board.selected) == Some(id)
            &&& shown_of(after.board.timelines@, other) == shown_of(before.board.timelines@, other)
            &&& after.board.conversations@.contains_key(other)
                <==> before.board.conversations@.contains_key(other)
            &&& r.sync_friends <==> !before.board.conversations@.contains_key(id)
        }),
{
    let id = conversation@.id;
    let shown = message_views(after.board.timelines@[id]@);
    assert forall|i: int, j: int| 0 <= i < j < shown.len() implies (#[trigger] shown[i]).sent_at
        <= (#[trigger] shown[j]).sent_at by {
        assert(in_order(shown[i], shown[j]));
    }
    assert(after.board.timelines@.remove(id).contains_key(other)
        == before.board.timelines@.remove(id).contains_key(other));
    if before.board.timelines@.contains_key(other) {
        assert(after.board.timelines@.remove(id)[other] == before.board.timelines@.remove(
            id,
        )[other]);
    }
}

/// Once the endpoint is bound we go by its key, an earlier error is forgotten and every peer asked
/// for is called. Contacts are stored and told of only where peers were added, and none is lost.
pub proof fn law_bound_endpoint_calls_its_peers(
    before: Session,
    after: Session,
    node_id: NodeId,
    call_peers: Seq<NodeId>,
    fixture_peers: Seq<NodeId>,
    r: Reaction,
    i: int,
)
    requires
        after.bound(before, node_id, call_peers, fixture_peers, r),
        0 <= i < call_peers.len(),
    ensures
        after.our_node_id == Some(node_id),
        after.service_error is None,
        r.effects@.len() == call_peers.len(),
        r.effects@[i] == CallEffect::Send(Command::Call { node_id: call_peers[i] }),
        !r.save_friends ==> after.contacts@ == before.contacts@ && !r.sync_friends,
        r.save_friends ==> after.contacts@.len() > before.contacts@.len() && r.sync_friends,
        forall|k: int|
            0 <= k < before.contacts@.len() ==> after.contacts@.contains(
                #[trigger] before.contacts@[k],
            ),
        after.board == before.board && after.groups == before.groups && after.desk == before.desk,
        r.cards@.len() == 0 && !r.save_seen && !r.take_picture && r.attachment is None,
{
    let all = with_fixtures(before.contacts@, keys_of(fixture_peers));
    if all.len() > 0 {
        law_contacts_are_kept(all, 0);
    }
    law_fixture_peers_become_contacts(before.contacts@, keys_of(fixture_peers), node_id@);
    assert forall|k: int| 0 <= k < before.contacts@.len() implies after.contacts@.contains(
        #[trigger] before.contacts@[k],
    ) by {
        assert(all[k] == before.contacts@[k]);
        law_contacts_are_kept(all, k);
    }
}

/// A report of a peer concerns that peer alone: its availability is noted, and its calls are known
/// while it is online.
pub proof fn law_reports_concern_one_peer(
    before: Session,
    after: Session,
    peer: NodeId,
    availability: Availability,
    calls: Vec<GroupCallAnnouncement>,
    other: Seq<u8>,
)
    requires
        after.reported(before, peer, availability, calls),
        other != peer@,
    ensures
        after.groups.status@.contains_key(peer@) && after.groups.status@[peer@] == availability,
        availability == Availability::Online <==> after.groups.reports@.contains_key(peer@),
        availability == Availability::Online ==> after.groups.reports@[peer@] == calls,
        after.groups.reports@.contains_key(other) <==> before.groups.reports@.contains_key(other),
        before.groups.reports@.contains_key(other) ==> after.groups.reports@[other]
            == before.groups.reports@[other],
        after.groups.status@.contains_key(other) <==> before.groups.status@.contains_key(other),
        before.groups.status@.contains_key(other) ==> after.groups.status@[other]
            == before.groups.status@[other],
        after.groups.local == before.groups.local && after.groups.seen == before.groups.seen,
        after.board == before.board && after.contacts == before.contacts && after.desk
            == before.desk && after.mode == before.mode,
{
}

/// Entering a group call shows the calls and remembers that it was seen, which is to be stored;
/// what others report of their calls does not change.
pub proof fn law_entered_call_is_ours(
    before: Session,
    after: Session,
    call: GroupCallAnnouncement,
    now: i64,
    r: Reaction,
)
    requires
        after.entered(before, call, now, r),
    ensures
        after.mode == AppMode::Calls,
        after.groups.local == Some(call),
        after.groups.seen@.contains_key(call@.call_id),
        after.groups.reports == before.groups.reports,
        after.groups.status == before.groups.status,
        r.save_seen && !r.save_friends && !r.sync_friends && !r.take_picture,
        r.cards@.len() == 0 && r.effects@.len() == 0 && r.attachment is None,
        after.board == before.board && after.contacts == before.contacts && after.desk
            == before.desk,
{
}

/// A notice is one card that says what it is given and asks for nothing.
pub proof fn law_notices_say_what_happened(
    r: Reaction,
    kind: NotificationKind,
    key: Seq<char>,
    title: Seq<char>,
    body: Seq<char>,
)
    requires
        r.only_tells(kind, key, title, body),
    ensures
        r.cards@.len() == 1,
        r.cards@[0].kind == kind,
        r.cards@[0].title@ == title,
        r.cards@[0].body@ == body,
        r.cards@[0].group_key is Some && r.cards@[0].group_key->0@ == key,
        r.cards@[0].action is None && r.cards@[0].buttons@.len() == 0,
        r.effects@.len() == 0 && r.attachment is None,
        !r.save_friends && !r.sync_friends && !r.save_seen && !r.take_picture,
{
}

/// A message's card stands with its conversation, opens it, and says what was written.
pub proof fn law_announcements_open_their_conversation(
    card: NotificationSpec,
    conversation: ChatConversation,
    message: MessageView,
    contacts: Contacts,
)
    requires
        is_announcement(card, conversation, message, contacts),
    ensures
        card.kind == NotificationKind::Message,
        card.action matches Some(NotificationAction::OpenConversation(id)) && id@
            == conversation@.id,
        card.group_key is Some && card.group_key->0@ == "conversation:"@ + conversation@.id,
        card.body@ == announced_body(message),
        card.title@ == announced_author(message.author_id, contacts@) || card.title@
            == announced_author(message.author_id, contacts@) + " - "@ + conversation@.title,
        card.buttons@.len() == 0,
{
}

} // verus!
