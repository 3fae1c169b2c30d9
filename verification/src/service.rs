//! The chat service: what it knows of conversations, and what it decides as invitations,
//! requests, document events and wishes of the user come in.
use vstd::prelude::*;
use crate::clock::{next_count, nonce_of, now_millis, NonceSource};
use crate::conversation::{
    check_group, direct_conversation_id, direct_id, group_fault, group_id, group_title, is_member, members_of,
    other_members, peers_among, plan_direct, plan_group, plan_rotation, ConversationPlan,
    GroupError, KindView, StoredConversation,
};
use crate::delivery::{Deliveries, DeliveryView};
use crate::digits::hex_lower;
use crate::invite::{Adoption, ChatInvite};
use crate::message::{is_message_id, message_id_form, ChatMessage, MessageError};
use crate::node::{keys_of, NodeId};
use crate::table::Table;
use crate::text::{lemma_held_after_push, same_text, texts};
use crate::timeline::message_views;

verus! {

/// The state of the chat service.
pub struct ChatService {
    pub our_node_id: NodeId,
    pub index: Table<String, StoredConversation>,
    /// For each conversation, the messages deleted on this device.
    pub local_deletions: Table<String, Table<String, ()>>,
    /// For each conversation, the document whose events we receive.
    pub subscriptions: Table<String, String>,
    pub deliveries: Deliveries,
}

/// The messages that are hidden in each conversation.
pub open spec fn hidden_map(t: Table<String, Table<String, ()>>) -> Map<Seq<char>, Set<Seq<char>>> {
    Map::new(|c: Seq<char>| t@.contains_key(c), |c: Seq<char>| t@[c]@.dom())
}

/// The hidden messages of one conversation.
pub open spec fn hidden_in(
    hidden: Map<Seq<char>, Set<Seq<char>>>,
    conversation: Seq<char>,
) -> Set<Seq<char>> {
    if hidden.contains_key(conversation) {
        hidden[conversation]
    } else {
        Set::empty()
    }
}

/// The hidden messages with one more.
pub open spec fn with_hidden(
    hidden: Map<Seq<char>, Set<Seq<char>>>,
    conversation: Seq<char>,
    message: Seq<char>,
) -> Map<Seq<char>, Set<Seq<char>>> {
    hidden.insert(conversation, hidden_in(hidden, conversation).insert(message))
}

/// The hidden messages with one less; a conversation with none left is dropped.
pub open spec fn without_hidden(
    hidden: Map<Seq<char>, Set<Seq<char>>>,
    conversation: Seq<char>,
    message: Seq<char>,
) -> Map<Seq<char>, Set<Seq<char>>> {
    let rest = hidden_in(hidden, conversation).remove(message);
    if rest == Set::<Seq<char>>::empty() {
        hidden.remove(conversation)
    } else {
        hidden.insert(conversation, rest)
    }
}

/// Why a message cannot be deleted or restored.
#[derive(Debug, Clone, Copy, PartialEq, Eq, Structural)]
pub enum DeletionError {
    UnknownConversation,
    InvalidMessageId,
    NotDeletedLocally,
    MessageUnavailable,
    NotTheAuthor,
}

/// Why a message cannot be sent.
#[derive(Debug, Clone, Copy, PartialEq, Eq, Structural)]
pub enum SendError {
    Invalid(MessageError),
    DifferentIdentity,
    UnknownConversation,
}

/// What a request to synchronise leads to.
#[derive(Debug, Clone, Copy, PartialEq, Eq, Structural)]
pub enum SyncVerdict {
    Unsupported,
    Pull,
    NotAMember,
}

/// What happens to a document.
#[derive(Debug, Clone, Copy, PartialEq, Eq, Structural)]
pub enum DocumentEvent {
    InsertLocal,
    InsertRemote,
    ContentReady,
    PendingContentReady,
    SyncFinished,
    Other,
}

/// Whether an event changes the timeline, and then whether it shows that a peer is online: an
/// entry of a peer or a finished synchronisation does, local entries and arriving content do
/// not.
pub fn document_change(event: DocumentEvent) -> (r: Option<bool>)
    ensures
        r == match event {
            DocumentEvent::InsertLocal => Some(false),
            DocumentEvent::InsertRemote => Some(true),
            DocumentEvent::ContentReady => Some(false),
            DocumentEvent::PendingContentReady => Some(false),
            DocumentEvent::SyncFinished => Some(true),
            DocumentEvent::Other => None::<bool>,
        },
{
    match event {
        DocumentEvent::InsertLocal => Some(false),
        DocumentEvent::InsertRemote => Some(true),
        DocumentEvent::ContentReady => Some(false),
        DocumentEvent::PendingContentReady => Some(false),
        DocumentEvent::SyncFinished => Some(true),
        DocumentEvent::Other => None,
    }
}

impl ChatService {
    /// The tables are in order.
    pub open spec fn wf(self) -> bool {
        &&& self.index.wf()
        &&& self.local_deletions.wf()
        &&& self.subscriptions.wf()
        &&& self.deliveries.wf()
        &&& forall|c: Seq<char>| #[trigger]
            self.local_deletions@.contains_key(c) ==> self.local_deletions@[c].wf()
    }

    /// The messages deleted on this device.
    pub open spec fn hidden(self) -> Map<Seq<char>, Set<Seq<char>>> {
        hidden_map(self.local_deletions)
    }

    /// A service with the conversations and local deletions that were saved.
    pub fn new(
        our_node_id: NodeId,
        index: Table<String, StoredConversation>,
        local_deletions: Table<String, Table<String, ()>>,
    ) -> (s: ChatService)
        requires
            index.wf(),
            local_deletions.wf(),
            forall|c: Seq<char>| #[trigger]
                local_deletions@.contains_key(c) ==> local_deletions@[c].wf(),
        ensures
            s.wf(),
            s.our_node_id@ == our_node_id@,
            s.index == index,
            s.local_deletions == local_deletions,
            s.subscriptions@ == Map::<Seq<char>, String>::empty(),
            s.deliveries@ == (DeliveryView {
                pending: Map::empty(),
                retries: Map::empty(),
                inflight: Map::empty(),
                queued: Seq::empty(),
            }),
    {
        ChatService {
            our_node_id,
            index,
            local_deletions,
            subscriptions: Table::new(),
            deliveries: Deliveries::new(),
        }
    }

    // -----------------------------------------------------------------------
    // Deleting and restoring
    // -----------------------------------------------------------------------

    /// Deletes a message on this device. Says whether it was not deleted already, which undoing
    /// needs to know.
    pub fn delete_message_locally(&mut self, conversation_id: &str, message_id: &str) -> (r: Result<
        bool,
        DeletionError,
    >)
        requires
            old(self).wf(),
        ensures
            final(self).wf(),
            final(self).index == old(self).index,
            final(self).subscriptions == old(self).subscriptions,
            final(self).deliveries == old(self).deliveries,
            final(self).our_node_id == old(self).our_node_id,
            match r {
                Ok(inserted) => old(self).index@.contains_key(conversation_id@) && message_id_form(
                    message_id@,
                ) && inserted == !hidden_in(old(self).hidden(), conversation_id@).contains(
                    message_id@,
                ) && final(self).hidden() == with_hidden(
                    old(self).hidden(),
                    conversation_id@,
                    message_id@,
                ),
                Err(e) => final(self).hidden() == old(self).hidden() && e == if !old(
                    self,
                ).index@.contains_key(conversation_id@) {
                    DeletionError::UnknownConversation
                } else {
                    DeletionError::InvalidMessageId
                } && !(old(self).index@.contains_key(conversation_id@) && message_id_form(
                    message_id@,
                )),
            },
    {
        let key = conversation_id.to_owned();
        if !self.index.has(&key) {
            return Err(DeletionError::UnknownConversation);
        }
        if !is_message_id(message_id) {
            return Err(DeletionError::InvalidMessageId);
        }
        let inserted: bool = self.conceal(conversation_id, message_id);
        Ok(inserted)
    }

    fn conceal(&mut self, conversation_id: &str, message_id: &str) -> (inserted: bool)
        requires
            old(self).wf(),
        ensures
            final(self).wf(),
            final(self).index == old(self).index,
            final(self).subscriptions == old(self).subscriptions,
            final(self).deliveries == old(self).deliveries,
            final(self).our_node_id == old(self).our_node_id,
            inserted == !hidden_in(old(self).hidden(), conversation_id@).contains(message_id@),
            final(self).hidden() == with_hidden(
                old(self).hidden(),
                conversation_id@,
                message_id@,
            ),
    {
        let ghost before = *self;
        let key = conversation_id.to_owned();
        let mut set: Table<String, ()> = match self.local_deletions.remove(&key) {
            Some(set) => set,
            None => {
                let set: Table<String, ()> = Table::new();
                assert(set@.dom() =~= Set::empty());
                set
            },
        };
        let ghost old_set = set@.dom();
        let message = message_id.to_owned();
        let inserted: bool = !set.has(&message);
        set.insert(message, ());
        assert(set@.dom() =~= old_set.insert(message_id@));
        let ghost new_set = set@.dom();
        self.local_deletions.insert(key, set);
        assert(self.hidden() =~= before.hidden().insert(conversation_id@, new_set));
        inserted
    }

    fn uncover(&mut self, conversation_id: &str, message_id: &str)
        requires
            old(self).wf(),
        ensures
            final(self).wf(),
            final(self).index == old(self).index,
            final(self).subscriptions == old(self).subscriptions,
            final(self).deliveries == old(self).deliveries,
            final(self).our_node_id == old(self).our_node_id,
            final(self).hidden() == without_hidden(
                old(self).hidden(),
                conversation_id@,
                message_id@,
            ),
    {
        let ghost before = *self;
        let key = conversation_id.to_owned();
        match self.local_deletions.remove(&key) {
            Some(mut set) => {
                let ghost old_set = set@.dom();
                let message = message_id.to_owned();
                set.remove(&message);
                assert(set@.dom() =~= old_set.remove(message_id@));
                let ghost new_set = set@.dom();
                if set.len() > 0 {
                    proof {
                        set.lemma_entry(0);
                        assert(new_set.contains(set.entries@[0].0@));
                    }
                    self.local_deletions.insert(key, set);
                    assert(self.hidden() =~= before.hidden().insert(conversation_id@, new_set));
                } else {
                    assert(new_set =~= Set::empty());
                    assert(self.hidden() =~= before.hidden().remove(conversation_id@));
                }
            },
            None => {
                assert(Set::<Seq<char>>::empty().remove(message_id@) =~= Set::empty());
                assert(self.hidden() =~= before.hidden().remove(conversation_id@));
            },
        }
    }

    /// Takes back a local deletion that could not be saved.
    pub fn undo_local_deletion(&mut self, conversation_id: &str, message_id: &str, inserted: bool)
        requires
            old(self).wf(),
        ensures
            final(self).wf(),
            final(self).index == old(self).index,
            final(self).subscriptions == old(self).subscriptions,
            final(self).our_node_id == old(self).our_node_id,
            final(self).deliveries == old(self).deliveries,
            final(self).hidden() == if inserted {
                without_hidden(old(self).hidden(), conversation_id@, message_id@)
            } else {
                old(self).hidden()
            },
    {
        if inserted {
            self.uncover(conversation_id, message_id);
        }
    }

    /// Restores a message that was deleted on this device.
    pub fn restore_message_locally(&mut self, conversation_id: &str, message_id: &str) -> (r: Result<
        (),
        DeletionError,
    >)
        requires
            old(self).wf(),
        ensures
            final(self).wf(),
            final(self).index == old(self).index,
            final(self).subscriptions == old(self).subscriptions,
            final(self).deliveries == old(self).deliveries,
            final(self).our_node_id == old(self).our_node_id,
            match r {
                Ok(_) => old(self).index@.contains_key(conversation_id@) && message_id_form(
                    message_id@,
                ) && hidden_in(old(self).hidden(), conversation_id@).contains(message_id@)
                    && final(self).hidden() == without_hidden(
                    old(self).hidden(),
                    conversation_id@,
                    message_id@,
                ),
                Err(e) => final(self).hidden() == old(self).hidden() && e == if !old(
                    self,
                ).index@.contains_key(conversation_id@) {
                    DeletionError::UnknownConversation
                } else if !message_id_form(message_id@) {
                    DeletionError::InvalidMessageId
                } else {
                    DeletionError::NotDeletedLocally
                } && !(old(self).index@.contains_key(conversation_id@) && message_id_form(
                    message_id@,
                ) && hidden_in(old(self).hidden(), conversation_id@).contains(message_id@)),
            },
    {
        let key = conversation_id.to_owned();
        if !self.index.has(&key) {
            return Err(DeletionError::UnknownConversation);
        }
        if !is_message_id(message_id) {
            return Err(DeletionError::InvalidMessageId);
        }
        let message = message_id.to_owned();
        let is_hidden: bool = match self.local_deletions.get(&key) {
            Some(set) => set.has(&message),
            None => false,
        };
        if !is_hidden {
            return Err(DeletionError::NotDeletedLocally);
        }
        self.uncover(conversation_id, message_id);
        Ok(())
    }

    /// Takes back a restoration that could not be saved.
    pub fn undo_local_restore(&mut self, conversation_id: &str, message_id: &str)
        requires
            old(self).wf(),
        ensures
            final(self).wf(),
            final(self).index == old(self).index,
            final(self).subscriptions == old(self).subscriptions,
            final(self).our_node_id == old(self).our_node_id,
            final(self).deliveries == old(self).deliveries,
            final(self).hidden() == with_hidden(
                old(self).hidden(),
                conversation_id@,
                message_id@,
            ),
    {
        self.conceal(conversation_id, message_id);
    }

    /// The messages of a conversation that are deleted on this device.
    pub fn hidden_messages(&self, conversation_id: &str) -> (t: Table<String, ()>)
        requires
            self.wf(),
        ensures
            t.wf(),
            t@.dom() == hidden_in(self.hidden(), conversation_id@),
    {
        let key = conversation_id.to_owned();
        let mut t: Table<String, ()> = Table::new();
        assert(t@.dom() =~= Set::empty());
        match self.local_deletions.get(&key) {
            Some(set) => {
                let mut i: usize = 0;
                while i < set.entries.len()
                    invariant
                        0 <= i <= set.entries@.len(),
                        set.wf(),
                        t.wf(),
                        forall|id: Seq<char>| #[trigger]
                            t@.contains_key(id) <==> set.names().take(i as int).contains(id),
                    decreases set.entries@.len() - i,
                {
                    t.insert(set.entries[i].0.clone(), ());
                    proof {
                        let names = set.names();
                        let next = names.take(i as int + 1);
                        assert(next =~= names.take(i as int).push(names[i as int]));
                        assert forall|id: Seq<char>| #[trigger] t@.contains_key(id)
                            <==> next.contains(id) by {
                            if names.take(i as int).contains(id) {
                                let j = choose|j: int|
                                    0 <= j < names.take(i as int).len() && names.take(i as int)[j]
                                        == id;
                                assert(next[j] == id);
                            }
                            if id == names[i as int] {
                                assert(next[i as int] == id);
                            }
                        }
                    }
                    i += 1;
                }
                proof {
                    assert(set.names().take(set.entries@.len() as int) =~= set.names());
                    assert forall|id: Seq<char>| t@.dom().contains(id) <==> set@.dom().contains(
                        id,
                    ) by {
                        assert(t@.contains_key(id) <==> set.names().contains(id));
                    }
                    assert(t@.dom() =~= set@.dom());
                }
            },
            None => {},
        }
        t
    }

    // -----------------------------------------------------------------------
    // What may be written to a document
    // -----------------------------------------------------------------------

    /// Whether a message may be deleted for everyone; then the place of its entry, which our
    /// identity must have written.
    pub fn check_deletion_for_everyone(
        &self,
        conversation_id: &str,
        message_id: &str,
        messages: &Vec<ChatMessage>,
    ) -> (r: Result<usize, DeletionError>)
        requires
            self.wf(),
        ensures
            match r {
                Ok(at) => message_id_form(message_id@) && self.index@.contains_key(conversation_id@)
                    && at < messages@.len() && messages@[at as int].message_id@ == message_id@ && (
                forall|j: int|
                    0 <= j < at ==> (#[trigger] messages@[j]).message_id@ != message_id@)
                    && messages@[at as int].author_id@ == hex_lower(self.our_node_id@),
                Err(e) => match e {
                    DeletionError::InvalidMessageId => !message_id_form(message_id@),
                    DeletionError::UnknownConversation => message_id_form(message_id@)
                        && !self.index@.contains_key(conversation_id@),
                    DeletionError::MessageUnavailable => message_id_form(message_id@)
                        && self.index@.contains_key(conversation_id@) && forall|j: int|
                        0 <= j < messages@.len() ==> (#[trigger] messages@[j]).message_id@
                            != message_id@,
                    DeletionError::NotTheAuthor => message_id_form(message_id@)
                        && self.index@.contains_key(conversation_id@) && exists|at: int|
                        0 <= at < messages@.len() && (#[trigger] messages@[at]).message_id@
                            == message_id@ && messages@[at].author_id@ != hex_lower(
                            self.our_node_id@,
                        ) && forall|j: int|
                            0 <= j < at ==> (#[trigger] messages@[j]).message_id@ != message_id@,
                    DeletionError::NotDeletedLocally => false,
                },
            },
    {
        if !is_message_id(message_id) {
            return Err(DeletionError::InvalidMessageId);
        }
        let key = conversation_id.to_owned();
        if !self.index.has(&key) {
            return Err(DeletionError::UnknownConversation);
        }
        let ours = self.our_node_id.to_text();
        let mut i: usize = 0;
        while i < messages.len()
            invariant
                0 <= i <= messages@.len(),
                ours@ == hex_lower(self.our_node_id@),
                message_id_form(message_id@),
                self.index@.contains_key(conversation_id@),
                forall|j: int| 0 <= j < i ==> (#[trigger] messages@[j]).message_id@ != message_id@,
            decreases messages@.len() - i,
        {
            if same_text(messages[i].message_id.as_str(), message_id) {
                if same_text(messages[i].author_id.as_str(), ours.as_str()) {
                    return Ok(i);
                }
                assert(messages@[i as int].message_id@ == message_id@);
                return Err(DeletionError::NotTheAuthor);
            }
            i += 1;
        }
        Err(DeletionError::MessageUnavailable)
    }

    /// Whether a message may be written to the document of a conversation.
    pub fn check_message(&self, conversation_id: &str, message: &ChatMessage) -> (r: Result<
        (),
        SendError,
    >)
        requires
            self.wf(),
        ensures
            r == if message@.fault() is Some {
                Err::<(), SendError>(SendError::Invalid(message@.fault()->0))
            } else if message.author_id@ != hex_lower(self.our_node_id@) {
                Err(SendError::DifferentIdentity)
            } else if !self.index@.contains_key(conversation_id@) {
                Err(SendError::UnknownConversation)
            } else {
                Ok(())
            },
    {
        match message.validate() {
            Ok(_) => {},
            Err(e) => {
                return Err(SendError::Invalid(e));
            },
        }
        let ours = self.our_node_id.to_text();
        if !same_text(message.author_id.as_str(), ours.as_str()) {
            return Err(SendError::DifferentIdentity);
        }
        let key = conversation_id.to_owned();
        if !self.index.has(&key) {
            return Err(SendError::UnknownConversation);
        }
        Ok(())
    }

    /// The messages that we owe a receipt, in the order of the timeline.
    pub fn owed_receipts(&self, messages: &Vec<ChatMessage>) -> (ids: Vec<String>)
        ensures
            texts(ids@) == from_others(message_views(messages@), hex_lower(self.our_node_id@)),
    {
        let ghost views = message_views(messages@);
        let ours = self.our_node_id.to_text();
        let mut ids: Vec<String> = Vec::new();
        let mut i: usize = 0;
        assert(texts(ids@) =~= Seq::empty());
        while i < messages.len()
            invariant
                0 <= i <= messages@.len(),
                views == message_views(messages@),
                ours@ == hex_lower(self.our_node_id@),
                texts(ids@) == from_others(views.take(i as int), ours@),
            decreases messages@.len() - i,
        {
            let ghost before = texts(ids@);
            proof {
                assert(views.take(i as int + 1).drop_last() =~= views.take(i as int));
                assert(views.take(i as int + 1).last() == messages@[i as int]@);
            }
            if !same_text(messages[i].author_id.as_str(), ours.as_str()) {
                ids.push(messages[i].message_id.clone());
                assert(texts(ids@) =~= before.push(messages@[i as int].message_id@));
            }
            i += 1;
        }
        assert(views.take(messages@.len() as int) =~= views);
        ids
    }

    // -----------------------------------------------------------------------
    // Requests and members
    // -----------------------------------------------------------------------

    /// Whether `node` belongs to a conversation that we know.
    pub fn is_conversation_member(&self, conversation_id: &str, node: &NodeId) -> (r: bool)
        requires
            self.wf(),
        ensures
            r == (self.index@.contains_key(conversation_id@)
                && self.index@[conversation_id@].public@.members.contains(hex_lower(node@))),
    {
        let key = conversation_id.to_owned();
        match self.index.get(&key) {
            Some(stored) => is_member(&stored.public.members, node),
            None => false,
        }
    }

    /// What a peer's request to synchronise a conversation leads to.
    pub fn judge_sync_request(
        &self,
        kind: &str,
        version: u8,
        conversation_id: &str,
        remote: &NodeId,
    ) -> (v: SyncVerdict)
        requires
            self.wf(),
        ensures
            v == if kind@ != "sync-request"@ || version != 1 {
                SyncVerdict::Unsupported
            } else if self.index@.contains_key(conversation_id@)
                && self.index@[conversation_id@].public@.members.contains(hex_lower(remote@)) {
                SyncVerdict::Pull
            } else {
                SyncVerdict::NotAMember
            },
    {
        if !same_text(kind, "sync-request") || version != 1 {
            SyncVerdict::Unsupported
        } else if self.is_conversation_member(conversation_id, remote) {
            SyncVerdict::Pull
        } else {
            SyncVerdict::NotAMember
        }
    }

    /// The peers that a wake-up or an invitation for a conversation goes to.
    pub fn peers_of(&self, conversation_id: &str) -> (peers: Vec<NodeId>)
        requires
            self.wf(),
        ensures
            keys_of(peers@) == if self.index@.contains_key(conversation_id@) {
                peers_among(self.index@[conversation_id@].public@.members, self.our_node_id@)
            } else {
                Seq::empty()
            },
    {
        let key = conversation_id.to_owned();
        match self.index.get(&key) {
            Some(stored) => other_members(&stored.public.members, &self.our_node_id),
            None => {
                let none: Vec<NodeId> = Vec::new();
                assert(keys_of(none@) =~= Seq::empty());
                none
            },
        }
    }

    /// The invitation to a conversation that we know.
    pub fn invitation(&self, conversation_id: &str) -> (r: Option<ChatInvite>)
        requires
            self.wf(),
        ensures
            match r {
                Some(invite) => self.index@.contains_key(conversation_id@) && invite.version == 1
                    && invite.conversation@ == self.index@[conversation_id@].public@
                    && invite.ticket@ == self.index@[conversation_id@].ticket@,
                None => !self.index@.contains_key(conversation_id@),
            },
    {
        let key = conversation_id.to_owned();
        match self.index.get(&key) {
            Some(stored) => Some(
                ChatInvite {
                    version: 1,
                    conversation: stored.public.clone(),
                    ticket: stored.ticket.clone(),
                },
            ),
            None => None,
        }
    }

    // -----------------------------------------------------------------------
    // Documents come and go
    // -----------------------------------------------------------------------

    /// Whether the events of this document still have to be subscribed to.
    pub fn needs_subscription(&self, conversation_id: &str, document_id: &str) -> (r: bool)
        requires
            self.wf(),
        ensures
            r == !(self.subscriptions@.contains_key(conversation_id@)
                && self.subscriptions@[conversation_id@]@ == document_id@),
    {
        let key = conversation_id.to_owned();
        match self.subscriptions.get(&key) {
            Some(document) => !same_text(document.as_str(), document_id),
            None => true,
        }
    }

    /// The events of a document arrive from now on.
    pub fn subscribed(&mut self, conversation_id: &str, document_id: &str)
        requires
            old(self).wf(),
        ensures
            final(self).wf(),
            final(self).index == old(self).index,
            final(self).local_deletions == old(self).local_deletions,
            final(self).deliveries == old(self).deliveries,
            final(self).our_node_id == old(self).our_node_id,
            final(self).subscriptions@.dom() == old(self).subscriptions@.dom().insert(
                conversation_id@,
            ),
            final(self).subscriptions@[conversation_id@]@ == document_id@,
            forall|c: Seq<char>|
                c != conversation_id@ && #[trigger] old(self).subscriptions@.contains_key(c)
                    ==> final(self).subscriptions@[c] == old(self).subscriptions@[c],
    {
        let ghost before = *self;
        self.subscriptions.insert(conversation_id.to_owned(), document_id.to_owned());
        assert(self.subscriptions@.dom() =~= before.subscriptions@.dom().insert(conversation_id@));
    }

    /// The events of a document have ended. Says whether they were the ones of the current
    /// document, so that it is to be opened again.
    pub fn subscription_ended(&mut self, conversation_id: &str, document_id: &str) -> (reopen: bool)
        requires
            old(self).wf(),
        ensures
            final(self).wf(),
            final(self).index == old(self).index,
            final(self).local_deletions == old(self).local_deletions,
            final(self).deliveries == old(self).deliveries,
            final(self).our_node_id == old(self).our_node_id,
            reopen == (old(self).subscriptions@.contains_key(conversation_id@) && old(
                self,
            ).subscriptions@[conversation_id@]@ == document_id@),
            final(self).subscriptions@ == if reopen {
                old(self).subscriptions@.remove(conversation_id@)
            } else {
                old(self).subscriptions@
            },
    {
        if self.needs_subscription(conversation_id, document_id) {
            return false;
        }
        let key = conversation_id.to_owned();
        self.subscriptions.remove(&key);
        true
    }

    /// Forgets what this device kept of a conversation whose history is gone. Says whether the
    /// saved local deletions change.
    pub fn forget_conversation_local_state(&mut self, conversation_id: &str) -> (save: bool)
        requires
            old(self).wf(),
        ensures
            final(self).wf(),
            final(self).index == old(self).index,
            final(self).subscriptions == old(self).subscriptions,
            final(self).our_node_id == old(self).our_node_id,
            final(self).deliveries@ == old(self).deliveries@.forgotten(conversation_id@),
            final(self).hidden() == old(self).hidden().remove(conversation_id@),
            save == old(self).hidden().contains_key(conversation_id@),
    {
        let ghost before = *self;
        self.deliveries.forget_conversation(conversation_id);
        let key = conversation_id.to_owned();
        let removed = self.local_deletions.remove(&key);
        assert(self.hidden() =~= before.hidden().remove(conversation_id@));
        match removed {
            Some(_) => true,
            None => false,
        }
    }

    /// Keeps the replica of an accepted invitation. Says whether the saved local deletions
    /// change.
    pub fn adopt(&mut self, adoption: Adoption) -> (save: bool)
        requires
            old(self).wf(),
        ensures
            final(self).wf(),
            final(self).our_node_id == old(self).our_node_id,
            final(self).index@.dom() == old(self).index@.dom().insert(adoption.conversation.id@),
            final(self).index@[adoption.conversation.id@].public@ == adoption.conversation@,
            final(self).index@[adoption.conversation.id@].ticket@ == adoption.ticket@,
            forall|c: Seq<char>|
                c != adoption.conversation.id@ && #[trigger] old(self).index@.contains_key(c)
                    ==> final(self).index@[c] == old(self).index@[c],
            final(self).subscriptions@ == old(self).subscriptions@.remove(
                adoption.conversation.id@,
            ),
            adoption.history_reset ==> final(self).deliveries@ == old(self).deliveries@.forgotten(
                adoption.conversation.id@,
            ) && final(self).hidden() == old(self).hidden().remove(adoption.conversation.id@),
            !adoption.history_reset ==> final(self).deliveries@ == old(self).deliveries@
                && final(self).hidden() == old(self).hidden(),
            save == (adoption.history_reset && old(self).hidden().contains_key(
                adoption.conversation.id@,
            )),
    {
        let ghost before = *self;
        let id = adoption.conversation.id.clone();
        let save: bool = if adoption.history_reset {
            self.forget_conversation_local_state(id.as_str())
        } else {
            false
        };
        self.subscriptions.remove(&id);
        self.index.insert(
            id,
            StoredConversation { public: adoption.conversation, ticket: adoption.ticket },
        );
        assert(self.index@.dom() =~= before.index@.dom().insert(adoption.conversation.id@));
        save
    }

    /// Keeps a conversation that was just made.
    pub fn keep(&mut self, stored: StoredConversation)
        requires
            old(self).wf(),
        ensures
            final(self).wf(),
            final(self).index@ == old(self).index@.insert(stored.public.id@, stored),
            final(self).subscriptions == old(self).subscriptions,
            final(self).local_deletions == old(self).local_deletions,
            final(self).deliveries == old(self).deliveries,
            final(self).our_node_id == old(self).our_node_id,
    {
        let id = stored.public.id.clone();
        self.index.insert(id, stored);
    }

    /// Puts the fresh document of a conversation in the place of the old one. Gives the old
    /// document, which is no longer needed, and whether the saved local deletions change; or
    /// nothing if the conversation is not known.
    pub fn rotate_conversation_document(
        &mut self,
        conversation_id: &str,
        fresh: StoredConversation,
    ) -> (r: Option<(String, bool)>)
        requires
            old(self).wf(),
        ensures
            final(self).wf(),
            final(self).our_node_id == old(self).our_node_id,
            match r {
                Some(done) => old(self).index@.contains_key(conversation_id@) && done.0@ == old(
                    self,
                ).index@[conversation_id@].public.document_id@ && done.1 == old(
                    self,
                ).hidden().contains_key(conversation_id@) && final(self).index@ == old(
                    self,
                ).index@.insert(conversation_id@, fresh) && final(self).subscriptions@ == old(
                    self,
                ).subscriptions@.remove(conversation_id@) && final(self).deliveries@ == old(
                    self,
                ).deliveries@.forgotten(conversation_id@) && final(self).hidden() == old(
                    self,
                ).hidden().remove(conversation_id@),
                None => !old(self).index@.contains_key(conversation_id@) && *final(self) == *old(
                    self,
                ),
            },
    {
        let id = conversation_id.to_owned();
        let old_document: String = match self.index.get(&id) {
            Some(current) => current.public.document_id.clone(),
            None => {
                return None;
            },
        };
        let save: bool = self.forget_conversation_local_state(conversation_id);
        self.subscriptions.remove(&id);
        self.index.insert(id, fresh);
        Some((old_document, save))
    }

    /// Plans the fresh document of a conversation whose history is to be deleted.
    pub fn plan_clear_history(&self, conversation_id: &str) -> (r: Option<ConversationPlan>)
        requires
            self.wf(),
        ensures
            match r {
                Some(plan) => self.index@.contains_key(conversation_id@) && plan.id@
                    == self.index@[conversation_id@].public@.id && plan.title@
                    == self.index@[conversation_id@].public@.title && plan.kind@
                    == self.index@[conversation_id@].public@.kind && texts(plan.members@)
                    == self.index@[conversation_id@].public@.members && plan.history_epoch as int
                    == (if self.index@[conversation_id@].public.history_epoch == u64::MAX {
                    u64::MAX as int
                } else {
                    self.index@[conversation_id@].public.history_epoch + 1
                }),
                None => !self.index@.contains_key(conversation_id@),
            },
    {
        let key = conversation_id.to_owned();
        match self.index.get(&key) {
            Some(current) => Some(plan_rotation(current)),
            None => None,
        }
    }

    // -----------------------------------------------------------------------
    // New conversations
    // -----------------------------------------------------------------------

    /// The direct conversation with a peer: its id if we have it, else the plan for it.
    pub fn ensure_direct(&self, peer: NodeId, title: String) -> (r: Result<String, ConversationPlan>)
        requires
            self.wf(),
        ensures
            match r {
                Ok(id) => id@ == direct_id(self.our_node_id@, peer@) && self.index@.contains_key(
                    id@,
                ),
                Err(plan) => plan.id@ == direct_id(self.our_node_id@, peer@)
                    && !self.index@.contains_key(plan.id@) && plan.title@ == title@ && plan.kind@
                    == (KindView::Direct { peer_id: hex_lower(peer@) }) && members_of(
                    seq![self.our_node_id@, peer@],
                    texts(plan.members@),
                ) && plan.history_epoch == 0,
            },
    {
        let id = direct_conversation_id(self.our_node_id, peer);
        if self.index.has(&id) {
            return Ok(id);
        }
        Err(plan_direct(self.our_node_id, peer, title))
    }

    /// Plans a group with the given members. A nonce is drawn only where a group can be made.
    pub fn create_group(&self, title: &str, members: &Vec<NodeId>, nonces: &mut NonceSource) -> (r:
        Result<ConversationPlan, GroupError>)
        ensures
            match r {
                Ok(plan) => group_fault(title@, keys_of(members@), self.our_node_id@) is None
                    && plan.title@ == group_title(title@) && plan.kind@ == KindView::Group
                    && members_of(
                    keys_of(members@).push(self.our_node_id@),
                    texts(plan.members@),
                ) && plan.history_epoch == 0 && final(nonces).count() == next_count(
                    old(nonces).count(),
                ) && exists|now: int, nanos: u128|
                    0 <= now <= i64::MAX && plan.id@ == #[trigger] group_id(
                        self.our_node_id@,
                        now,
                        nonce_of(nanos, old(nonces).count()) as nat,
                    ),
                Err(e) => group_fault(title@, keys_of(members@), self.our_node_id@) == Some(e)
                    && final(nonces).count() == old(nonces).count(),
            },
    {
        match check_group(title, members, &self.our_node_id) {
            Ok(_) => {},
            Err(e) => {
                return Err(e);
            },
        }
        let now: i64 = now_millis();
        let nonce: u64 = nonces.next_nonce();
        let r = plan_group(title, members, self.our_node_id, now, nonce);
        proof {
            let nanos = choose|nanos: u128|
                nonce == #[trigger] nonce_of(nanos, old(nonces).count());
            assert(r->Ok_0.id@ == group_id(
                self.our_node_id@,
                now as int,
                nonce_of(nanos, old(nonces).count()) as nat,
            ));
        }
        r
    }
}

/// The messages of others, in the order of the timeline.
pub open spec fn from_others(
    messages: Seq<crate::message::MessageView>,
    ours: Seq<char>,
) -> Seq<Seq<char>>
    decreases messages.len(),
{
    if messages.len() == 0 {
        Seq::empty()
    } else {
        let rest = from_others(messages.drop_last(), ours);
        if messages.last().author_id != ours {
            rest.push(messages.last().message_id)
        } else {
            rest
        }
    }
}

/// A message that was deleted on this device and then restored leaves no trace.
pub proof fn law_restoring_undoes_deleting(
    hidden: Map<Seq<char>, Set<Seq<char>>>,
    conversation: Seq<char>,
    message: Seq<char>,
)
    requires
        !hidden_in(hidden, conversation).contains(message),
        hidden.contains_key(conversation) ==> hidden[conversation] != Set::<Seq<char>>::empty(),
    ensures
        without_hidden(with_hidden(hidden, conversation, message), conversation, message) == hidden,
{
    let set = hidden_in(hidden, conversation);
    assert(set.insert(message).remove(message) =~= set);
    assert(without_hidden(with_hidden(hidden, conversation, message), conversation, message)
        =~= hidden);
}

/// Deleting a message on this device touches no other message and no other conversation.
pub proof fn law_local_deletion_is_local(
    hidden: Map<Seq<char>, Set<Seq<char>>>,
    conversation: Seq<char>,
    message: Seq<char>,
    other_conversation: Seq<char>,
    other_message: Seq<char>,
)
    requires
        other_conversation != conversation || other_message != message,
    ensures
        hidden_in(with_hidden(hidden, conversation, message), other_conversation).contains(
            other_message,
        ) == hidden_in(hidden, other_conversation).contains(other_message),
        hidden_in(with_hidden(hidden, conversation, message), conversation).contains(message),
{
}

/// A receipt is owed for just those messages that somebody else wrote.
pub proof fn law_receipts_are_owed_to_others(
    messages: Seq<crate::message::MessageView>,
    ours: Seq<char>,
    id: Seq<char>,
)
    ensures
        from_others(messages, ours).contains(id) <==> exists|i: int|
            0 <= i < messages.len() && (#[trigger] messages[i]).message_id == id
                && messages[i].author_id != ours,
    decreases messages.len(),
{
    if messages.len() > 0 {
        let shorter = messages.drop_last();
        let rest = from_others(shorter, ours);
        law_receipts_are_owed_to_others(shorter, ours, id);
        lemma_held_after_push(rest, messages.last().message_id, id);
        assert(messages[messages.len() - 1] == messages.last());
        if rest.contains(id) {
            let i = choose|i: int|
                0 <= i < shorter.len() && (#[trigger] shorter[i]).message_id == id
                    && shorter[i].author_id != ours;
            assert(messages[i] == shorter[i]);
        }
        if exists|i: int|
            0 <= i < messages.len() && (#[trigger] messages[i]).message_id == id
                && messages[i].author_id != ours {
            let i = choose|i: int|
                0 <= i < messages.len() && (#[trigger] messages[i]).message_id == id
                    && messages[i].author_id != ours;
            if i < shorter.len() {
                assert(shorter[i] == messages[i]);
            }
        }
    }
}

/// Restoring a message shows it again, and touches no other message and no other conversation.
pub proof fn law_restoring_is_local(
    hidden: Map<Seq<char>, Set<Seq<char>>>,
    conversation: Seq<char>,
    message: Seq<char>,
    other_conversation: Seq<char>,
    other_message: Seq<char>,
)
    requires
        other_conversation != conversation || other_message != message,
    ensures
        !hidden_in(without_hidden(hidden, conversation, message), conversation).contains(message),
        hidden_in(without_hidden(hidden, conversation, message), other_conversation).contains(
            other_message,
        ) == hidden_in(hidden, other_conversation).contains(other_message),
{
    let rest = hidden_in(hidden, conversation).remove(message);
    if rest == Set::<Seq<char>>::empty() && other_conversation == conversation {
        assert(!rest.contains(other_message));
    }
}

} // verus!
