//! What comes in to the chat service, the steps that it leads to, and how they end.
use vstd::prelude::*;
use crate::conversation::GroupError;
use crate::delivery::{Deliveries, NoteView};
use crate::digits::{decimal, hex_lower, push_decimal};
use crate::invite::{ChatInvite, InviteError};
use crate::message::{message_id_form, ChatMessage, MessageDeletion, MessageError};
use crate::node::NodeId;
use crate::records::{
    receipt_id, receipt_message_id_from_key, record_fault, ReplicatedReceipt,
};
use crate::service::{ChatService, DeletionError, SendError, SyncVerdict};
use crate::sessions::{added, HotSession, SessionPool};
use crate::table::Table;
use crate::timeline::record_size_fits;

verus! {

// ---------------------------------------------------------------------------
// Inputs
// ---------------------------------------------------------------------------

/// A peer's request to synchronise a conversation.
#[derive(Debug)]
pub struct SyncRequest {
    pub kind: String,
    pub version: u8,
    pub conversation_id: String,
}

impl SyncRequest {
    /// The request for a conversation.
    pub fn new(conversation_id: String) -> (r: SyncRequest)
        ensures
            r.kind@ == "sync-request"@,
            r.version == 1,
            r.conversation_id == conversation_id,
    {
        SyncRequest { kind: "sync-request".to_owned(), version: 1, conversation_id }
    }
}

/// What comes in.
pub enum ChatInput {
    Invite { remote: NodeId, invite: ChatInvite },
    SyncRequest { remote: NodeId, request: SyncRequest },
    Changed { conversation_id: String, from_remote: bool },
    SubscriptionEnded { conversation_id: String, document_id: String },
    WakeFinished { conversation_id: String, reached: bool },
    Retry,
}

/// What an input leads to.
pub enum InputStep {
    /// Accept the invitation and, where that works, deliver what waits for the peer.
    Accept { remote: NodeId, invite: ChatInvite },
    /// Synchronise the conversation and publish it; whether or not that works, deliver what
    /// waits for the peer.
    Pull { remote: NodeId, conversation_id: String },
    /// Publish the conversation; before that deliver what waits for it, if a peer is online.
    Refresh { conversation_id: String, resume: bool },
    /// Open the conversation's document again.
    Reopen { conversation_id: String },
    FinishWake { conversation_id: String, reached: bool },
    RetryDue,
    /// Only tell this.
    Tell(String),
    Nothing,
}

/// What the user is told of a request that is not understood.
pub open spec fn unsupported_request(version: int) -> Seq<char> {
    "Unsupported chat sync request version "@ + decimal(version as nat)
}

impl ChatService {
    /// What an input leads to. Only the end of the current subscription changes anything here.
    pub fn process_input(&mut self, input: ChatInput) -> (step: InputStep)
        requires
            old(self).wf(),
        ensures
            final(self).wf(),
            final(self).index == old(self).index,
            final(self).local_deletions == old(self).local_deletions,
            final(self).deliveries == old(self).deliveries,
            final(self).our_node_id == old(self).our_node_id,
            !(input is SubscriptionEnded) ==> final(self).subscriptions == old(self).subscriptions,
            match input {
                ChatInput::Invite { remote, invite } => step == (InputStep::Accept {
                    remote,
                    invite,
                }),
                ChatInput::SyncRequest { remote, request } => {
                    let understood = request.kind@ == "sync-request"@ && request.version == 1;
                    let id = request.conversation_id@;
                    if !understood {
                        step matches InputStep::Tell(text) && text@ == unsupported_request(
                            request.version as int,
                        )
                    } else if old(self).index@.contains_key(id)
                        && old(self).index@[id].public@.members.contains(hex_lower(remote@)) {
                        step == (InputStep::Pull {
                            remote,
                            conversation_id: request.conversation_id,
                        })
                    } else {
                        step is Nothing
                    }
                },
                ChatInput::Changed { conversation_id, from_remote } => step == (
                InputStep::Refresh { conversation_id, resume: from_remote }),
                ChatInput::SubscriptionEnded { conversation_id, document_id } => {
                    let current = old(self).subscriptions@.contains_key(conversation_id@) && old(
                        self,
                    ).subscriptions@[conversation_id@]@ == document_id@;
                    &&& final(self).subscriptions@ == if current {
                        old(self).subscriptions@.remove(conversation_id@)
                    } else {
                        old(self).subscriptions@
                    }
                    &&& if current {
                        step == (InputStep::Reopen { conversation_id })
                    } else {
                        step is Nothing
                    }
                },
                ChatInput::WakeFinished { conversation_id, reached } => step == (
                InputStep::FinishWake { conversation_id, reached }),
                ChatInput::Retry => step is RetryDue,
            },
    {
        match input {
            ChatInput::Invite { remote, invite } => InputStep::Accept { remote, invite },
            ChatInput::SyncRequest { remote, request } => {
                let verdict = self.judge_sync_request(
                    request.kind.as_str(),
                    request.version,
                    request.conversation_id.as_str(),
                    &remote,
                );
                match verdict {
                    SyncVerdict::Unsupported => {
                        let mut s: String = "Unsupported chat sync request version ".to_owned();
                        push_decimal(&mut s, request.version as u64);
                        InputStep::Tell(s)
                    },
                    SyncVerdict::Pull => InputStep::Pull {
                        remote,
                        conversation_id: request.conversation_id,
                    },
                    SyncVerdict::NotAMember => InputStep::Nothing,
                }
            },
            ChatInput::Changed { conversation_id, from_remote } => InputStep::Refresh {
                conversation_id,
                resume: from_remote,
            },
            ChatInput::SubscriptionEnded { conversation_id, document_id } => {
                if self.subscription_ended(conversation_id.as_str(), document_id.as_str()) {
                    InputStep::Reopen { conversation_id }
                } else {
                    InputStep::Nothing
                }
            },
            ChatInput::WakeFinished { conversation_id, reached } => InputStep::FinishWake {
                conversation_id,
                reached,
            },
            ChatInput::Retry => InputStep::RetryDue,
        }
    }
}

// ---------------------------------------------------------------------------
// How steps end
// ---------------------------------------------------------------------------

/// A step that can fail so that the user is told.
#[derive(Clone, Copy, Debug, PartialEq, Eq, Structural)]
pub enum Task {
    AcceptInvite,
    Refresh,
    Reopen,
    ClearHistory,
    Delete,
    RefreshDeleted,
    Restore,
    RefreshRestored,
}

impl Task {
    /// What the user is told, before the reason.
    pub open spec fn complaint(self) -> Seq<char> {
        match self {
            Task::AcceptInvite => "Chat invitation failed: "@,
            Task::Refresh => "Could not refresh chat: "@,
            Task::Reopen => "Could not restore live chat updates: "@,
            Task::ClearHistory => "Could not clear history: "@,
            Task::Delete => "Could not delete message: "@,
            Task::RefreshDeleted => "Could not refresh deleted message: "@,
            Task::Restore => "Could not restore message: "@,
            Task::RefreshRestored => "Could not refresh restored message: "@,
        }
    }

    /// What the user is told when the step has failed.
    pub fn failure_text(self, reason: &str) -> (s: String)
        ensures
            s@ == self.complaint() + reason@,
    {
        let mut s: String = match self {
            Task::AcceptInvite => "Chat invitation failed: ".to_owned(),
            Task::Refresh => "Could not refresh chat: ".to_owned(),
            Task::Reopen => "Could not restore live chat updates: ".to_owned(),
            Task::ClearHistory => "Could not clear history: ".to_owned(),
            Task::Delete => "Could not delete message: ".to_owned(),
            Task::RefreshDeleted => "Could not refresh deleted message: ".to_owned(),
            Task::Restore => "Could not restore message: ".to_owned(),
            Task::RefreshRestored => "Could not refresh restored message: ".to_owned(),
        };
        s.append(reason);
        s
    }
}

/// What the user is told when a conversation could not be opened at the start.
pub fn open_failure_text(conversation_id: &str, reason: &str) -> (s: String)
    ensures
        s@ == "Could not open chat "@ + conversation_id@ + ": "@ + reason@,
{
    let mut s: String = "Could not open chat ".to_owned();
    s.append(conversation_id);
    s.append(": ");
    s.append(reason);
    s
}

/// What the user is told of a change: why it failed, or why what it left could not be shown.
pub open spec fn change_note(
    change: Task,
    refresh: Task,
    changed: Option<Seq<char>>,
    shown: Option<Seq<char>>,
) -> Seq<NoteView> {
    match changed {
        Some(reason) => seq![NoteView::Error(change.complaint() + reason)],
        None => match shown {
            Some(reason) => seq![NoteView::Error(refresh.complaint() + reason)],
            None => Seq::empty(),
        },
    }
}

/// The reason of a failure.
pub open spec fn reason_of(r: Result<(), String>) -> Option<Seq<char>> {
    match r {
        Ok(_) => None,
        Err(reason) => Some(reason@),
    }
}

impl Deliveries {
    fn change_done(
        &mut self,
        change: Task,
        refresh: Task,
        changed: Result<(), String>,
        shown: Result<(), String>,
    )
        requires
            old(self).wf(),
        ensures
            final(self).wf(),
            final(self)@ == old(self)@.telling(
                change_note(change, refresh, reason_of(changed), reason_of(shown)),
            ),
    {
        match changed {
            Err(reason) => {
                self.report(change.failure_text(reason.as_str()));
            },
            Ok(_) => match shown {
                Err(reason) => {
                    self.report(refresh.failure_text(reason.as_str()));
                },
                Ok(_) => {
                    assert(self@.queued + Seq::<NoteView>::empty() =~= self@.queued);
                },
            },
        }
    }

    /// A message was deleted and its conversation published, as far as that worked.
    pub fn message_deleted(&mut self, deleted: Result<(), String>, shown: Result<(), String>)
        requires
            old(self).wf(),
        ensures
            final(self).wf(),
            final(self)@ == old(self)@.telling(
                change_note(
                    Task::Delete,
                    Task::RefreshDeleted,
                    reason_of(deleted),
                    reason_of(shown),
                ),
            ),
    {
        self.change_done(Task::Delete, Task::RefreshDeleted, deleted, shown);
    }

    /// A message was restored and its conversation published, as far as that worked.
    pub fn message_restored(&mut self, restored: Result<(), String>, shown: Result<(), String>)
        requires
            old(self).wf(),
        ensures
            final(self).wf(),
            final(self)@ == old(self)@.telling(
                change_note(
                    Task::Restore,
                    Task::RefreshRestored,
                    reason_of(restored),
                    reason_of(shown),
                ),
            ),
    {
        self.change_done(Task::Restore, Task::RefreshRestored, restored, shown);
    }
}

/// Whether a message that moves to another document takes its deletion along.
pub fn migrates_deletion(message: &ChatMessage) -> (r: bool)
    ensures
        r == (message@.deletion == Some(MessageDeletion::Everyone)),
{
    match &message.deletion {
        Some(MessageDeletion::Everyone) => true,
        _ => false,
    }
}

// ---------------------------------------------------------------------------
// Receipts
// ---------------------------------------------------------------------------

/// An entry of a document among the receipts.
#[derive(Debug)]
pub struct ReceiptEntry {
    /// Whether we wrote it.
    pub ours: bool,
    pub key: Vec<u8>,
    pub content_len: u64,
    /// What it holds, where that is here and can be read.
    pub body: Option<ReplicatedReceipt>,
}

/// The message that an entry says to have arrived. The key of a receipt is enough; what it holds
/// counts only where the key names no message.
pub open spec fn acknowledged_by(entry: ReceiptEntry) -> Option<Seq<char>> {
    if entry.ours {
        None
    } else if receipt_id(entry.key@) is Some {
        receipt_id(entry.key@)
    } else if 0 < entry.content_len <= 16 * 1024 && entry.body is Some && record_fault(
        entry.body->0.version as int,
        entry.body->0.message_id@,
    ) is None {
        Some(entry.body->0.message_id@)
    } else {
        None
    }
}

/// Whether what an entry holds has to be read at all.
pub fn needs_body(ours: bool, key: &Vec<u8>, content_len: u64) -> (r: bool)
    ensures
        r == (!ours && receipt_id(key@) is None && 0 < content_len <= 16 * 1024),
{
    if ours {
        return false;
    }
    receipt_message_id_from_key(key.as_slice()).is_none() && record_size_fits(content_len)
}

fn read_receipt(entry: &ReceiptEntry) -> (r: Option<String>)
    ensures
        match r {
            Some(id) => acknowledged_by(*entry) == Some(id@),
            None => acknowledged_by(*entry) is None,
        },
{
    if entry.ours {
        return None;
    }
    match receipt_message_id_from_key(entry.key.as_slice()) {
        Some(id) => Some(id),
        None => {
            if !record_size_fits(entry.content_len) {
                return None;
            }
            match &entry.body {
                Some(receipt) => match receipt.validate() {
                    Ok(_) => Some(receipt.message_id.clone()),
                    Err(_) => None,
                },
                None => None,
            }
        },
    }
}

/// The messages that have arrived at some peer, by what a document says.
pub fn load_delivered_message_ids(entries: &Vec<ReceiptEntry>) -> (delivered: Table<String, ()>)
    ensures
        delivered.wf(),
        forall|id: Seq<char>| #[trigger]
            delivered@.contains_key(id) <==> exists|i: int|
                0 <= i < entries@.len() && acknowledged_by(#[trigger] entries@[i]) == Some(id),
{
    let mut delivered: Table<String, ()> = Table::new();
    let mut i: usize = 0;
    while i < entries.len()
        invariant
            0 <= i <= entries@.len(),
            delivered.wf(),
            forall|id: Seq<char>| #[trigger]
                delivered@.contains_key(id) <==> exists|j: int|
                    0 <= j < i && acknowledged_by(#[trigger] entries@[j]) == Some(id),
        decreases entries@.len() - i,
    {
        let ghost before = delivered@;
        let read = read_receipt(&entries[i]);
        let ghost named = acknowledged_by(entries@[i as int]);
        match read {
            Some(id) => {
                delivered.insert(id, ());
            },
            None => {},
        }
        proof {
            assert forall|id: Seq<char>| #[trigger] delivered@.contains_key(id) implies exists|
                j: int,
            | 0 <= j < i + 1 && acknowledged_by(#[trigger] entries@[j]) == Some(id) by {
                if named == Some(id) {
                    assert(acknowledged_by(entries@[i as int]) == Some(id));
                } else {
                    assert(before.contains_key(id));
                }
            }
            assert forall|id: Seq<char>|
                (exists|j: int| 0 <= j < i + 1 && acknowledged_by(#[trigger] entries@[j]) == Some(id))
                implies #[trigger] delivered@.contains_key(id) by {
                let j = choose|j: int|
                    0 <= j < i + 1 && acknowledged_by(#[trigger] entries@[j]) == Some(id);
                if j < i {
                    assert(before.contains_key(id));
                }
            }
        }
        i += 1;
    }
    delivered
}

/// A receipt counts as soon as its entry exists: what it holds need not have arrived.
pub proof fn law_receipt_counts_at_once(entry: ReceiptEntry, id: Seq<char>)
    requires
        !entry.ours,
        receipt_id(entry.key@) == Some(id),
    ensures
        acknowledged_by(ReceiptEntry { body: None, content_len: 0, ..entry }) == Some(id),
        acknowledged_by(entry) == Some(id),
{
}

// ---------------------------------------------------------------------------
// Sessions that peers open
// ---------------------------------------------------------------------------

/// What happens on a connection that a peer has opened.
#[derive(Clone, Copy, Debug, PartialEq, Eq, Structural)]
pub enum SessionEvent {
    /// The peer begins to send something.
    StreamOpened,
    /// What the peer has sent was read and passed on.
    Received,
    /// What the peer has sent could not be read, not in time, or not passed on.
    StreamFailed,
    /// Nothing has come for too long.
    Idle,
    Closed,
}

/// A peer has connected: the connection is kept for answers too.
pub fn session_opened(pool: &mut SessionPool, peer: NodeId, handle: u64, now: u64)
    requires
        old(pool).wf(),
    ensures
        final(pool).wf(),
        final(pool)@ == added(old(pool)@, peer@, handle, now),
{
    pool.insert(peer, handle, now);
}

/// What happens on a peer's connection; says whether to go on listening. In the end the
/// connection is forgotten, but it is not closed: the peer may still use it.
pub fn session_event(pool: &mut SessionPool, peer: NodeId, event: SessionEvent, now: u64) -> (
    goes_on: bool)
    requires
        old(pool).wf(),
    ensures
        final(pool).wf(),
        goes_on == (event == SessionEvent::StreamOpened || event == SessionEvent::Received),
        final(pool)@ == match event {
            SessionEvent::StreamOpened => if old(pool)@.contains_key(peer@) {
                old(pool)@.insert(
                    peer@,
                    HotSession { handle: old(pool)@[peer@].handle, last_used: now },
                )
            } else {
                old(pool)@
            },
            SessionEvent::Received => old(pool)@,
            _ => old(pool)@.remove(peer@),
        },
{
    match event {
        SessionEvent::StreamOpened => {
            pool.touch(peer, now);
            true
        },
        SessionEvent::Received => true,
        _ => {
            pool.forget(peer);
            false
        },
    }
}

// ---------------------------------------------------------------------------
// Reasons
// ---------------------------------------------------------------------------

impl MessageError {
    /// What is wrong with a record: a message, a deletion or a receipt.
    pub fn reason(self, record: &str) -> (s: String)
        ensures
            s@ == match self {
                MessageError::UnsupportedVersion(version) => "unsupported "@ + record@
                    + " version "@ + decimal(version as nat),
                MessageError::Empty => "message is empty"@,
                MessageError::TooLarge => "message is larger than the 1 MiB safety cap"@,
                MessageError::IncompleteIdentity => "message identity is incomplete"@,
                MessageError::InvalidMessageId => record@ + " has an invalid message id"@,
            },
    {
        match self {
            MessageError::UnsupportedVersion(version) => {
                let mut s: String = "unsupported ".to_owned();
                s.append(record);
                s.append(" version ");
                push_decimal(&mut s, version as u64);
                s
            },
            MessageError::Empty => "message is empty".to_owned(),
            MessageError::TooLarge => "message is larger than the 1 MiB safety cap".to_owned(),
            MessageError::IncompleteIdentity => "message identity is incomplete".to_owned(),
            MessageError::InvalidMessageId => {
                let mut s: String = record.to_owned();
                s.append(" has an invalid message id");
                s
            },
        }
    }
}

impl SendError {
    /// Why a message cannot be sent.
    pub fn reason(self) -> (s: String)
        ensures
            match self {
                SendError::Invalid(MessageError::UnsupportedVersion(version)) => s@
                    == "unsupported "@ + "message"@ + " version "@ + decimal(version as nat),
                SendError::Invalid(MessageError::Empty) => s@ == "message is empty"@,
                SendError::Invalid(MessageError::TooLarge) => s@
                    == "message is larger than the 1 MiB safety cap"@,
                SendError::Invalid(MessageError::IncompleteIdentity) => s@
                    == "message identity is incomplete"@,
                SendError::Invalid(MessageError::InvalidMessageId) => s@ == "message"@
                    + " has an invalid message id"@,
                SendError::DifferentIdentity => s@
                    == "cannot send a message for a different Wire identity"@,
                SendError::UnknownConversation => s@ == "unknown conversation"@,
            },
    {
        match self {
            SendError::Invalid(error) => error.reason("message"),
            SendError::DifferentIdentity => {
                "cannot send a message for a different Wire identity".to_owned()
            },
            SendError::UnknownConversation => "unknown conversation".to_owned(),
        }
    }
}

impl DeletionError {
    /// Why a message cannot be deleted or restored.
    pub fn reason(self) -> (s: String)
        ensures
            s@ == match self {
                DeletionError::UnknownConversation => "unknown conversation"@,
                DeletionError::InvalidMessageId => "invalid message id"@,
                DeletionError::NotDeletedLocally => "message is not deleted locally"@,
                DeletionError::MessageUnavailable => "message is no longer available"@,
                DeletionError::NotTheAuthor => {
                    "only the author can delete a message for everyone"@
                },
            },
    {
        match self {
            DeletionError::UnknownConversation => "unknown conversation".to_owned(),
            DeletionError::InvalidMessageId => "invalid message id".to_owned(),
            DeletionError::NotDeletedLocally => "message is not deleted locally".to_owned(),
            DeletionError::MessageUnavailable => "message is no longer available".to_owned(),
            DeletionError::NotTheAuthor => {
                "only the author can delete a message for everyone".to_owned()
            },
        }
    }
}

impl InviteError {
    /// Why an invitation is refused.
    pub fn reason(self) -> (s: String)
        ensures
            s@ == match self {
                InviteError::UnsupportedVersion(version) => "unsupported invitation version "@
                    + decimal(version as nat),
                InviteError::ExceedsLimits => "invitation metadata exceeds safety limits"@,
                InviteError::MembershipMismatch => {
                    "invitation membership does not match its sender and recipient"@
                },
                InviteError::InconsistentDirect => {
                    "direct-message invitation has inconsistent members"@
                },
                InviteError::InvalidTicket => "invalid document ticket"@,
            },
    {
        match self {
            InviteError::UnsupportedVersion(version) => {
                let mut s: String = "unsupported invitation version ".to_owned();
                push_decimal(&mut s, version as u64);
                s
            },
            InviteError::ExceedsLimits => "invitation metadata exceeds safety limits".to_owned(),
            InviteError::MembershipMismatch => {
                "invitation membership does not match its sender and recipient".to_owned()
            },
            InviteError::InconsistentDirect => {
                "direct-message invitation has inconsistent members".to_owned()
            },
            InviteError::InvalidTicket => "invalid document ticket".to_owned(),
        }
    }
}

impl GroupError {
    /// Why a group cannot be made.
    pub fn reason(self) -> (s: String)
        ensures
            s@ == match self {
                GroupError::EmptyName => "group name is empty"@,
                GroupError::NoOtherMember => "choose at least one other group member"@,
            },
    {
        match self {
            GroupError::EmptyName => "group name is empty".to_owned(),
            GroupError::NoOtherMember => "choose at least one other group member".to_owned(),
        }
    }
}

/// What we wrote ourselves is no receipt; and what counts as one is the word of somebody else
/// for a message that the entry's key, or a valid receipt in it, names.
pub proof fn law_receipts_are_the_word_of_others(entry: ReceiptEntry)
    ensures
        entry.ours ==> acknowledged_by(entry) is None,
        acknowledged_by(entry) is Some ==> ({
            let id = acknowledged_by(entry)->0;
            &&& !entry.ours
            &&& receipt_id(entry.key@) == Some(id) || (entry.body is Some && entry.body->0.version
                == 1 && entry.body->0.message_id@ == id && message_id_form(id) && 0
                < entry.content_len <= 16_384)
        }),
        !entry.ours && receipt_id(entry.key@) is None && 0 < entry.content_len <= 16_384
            && entry.body is Some && entry.body->0.version == 1 && message_id_form(
            entry.body->0.message_id@,
        ) ==> acknowledged_by(entry) == Some(entry.body->0.message_id@),
{
}

/// The user is told of the first thing that went wrong, and of nothing where all went well.
pub proof fn law_first_failure_is_told(
    change: Task,
    refresh: Task,
    reason: Seq<char>,
    shown: Option<Seq<char>>,
)
    ensures
        change_note(change, refresh, Some(reason), shown) == seq![
            NoteView::Error(change.complaint() + reason),
        ],
        change_note(change, refresh, None, Some(reason)) == seq![
            NoteView::Error(refresh.complaint() + reason),
        ],
        change_note(change, refresh, None, None).len() == 0,
{
}

} // verus!
