//! Invitations: which are accepted, and which replica of a conversation they leave us with.
use vstd::prelude::*;
use vstd::utf8::encode_utf8;
use crate::conversation::{
    direct_conversation_id, direct_id, group_title, is_member, law_direct_ids_are_symmetric,
    law_members_are_those_invited, members_of, ChatConversation, ConversationKind,
    ConversationView, KindView, StoredConversation, MAX_INVITE_MEMBERS, MAX_INVITE_TITLE,
};
use crate::digits::{hex_lower, lemma_hex_lower_injective};
use crate::node::NodeId;
use crate::text::{
    lemma_held_after_push, lemma_text_lt_total, lemma_text_lt_transitive, relate_text, same_text,
    text_lt, Relation,
};

verus! {

/// An invitation to a conversation.
#[derive(Debug)]
pub struct ChatInvite {
    pub version: u8,
    pub conversation: ChatConversation,
    pub ticket: String,
}

/// Why an invitation is refused.
#[derive(Debug, Clone, Copy, PartialEq, Eq, Structural)]
pub enum InviteError {
    UnsupportedVersion(u8),
    ExceedsLimits,
    MembershipMismatch,
    InconsistentDirect,
    InvalidTicket,
}

/// What is wrong with an invitation from `remote`, the first fault found.
pub open spec fn invite_fault(
    ours: Seq<u8>,
    remote: Seq<u8>,
    version: int,
    conversation: ConversationView,
    ticket_reads: bool,
) -> Option<InviteError> {
    if version != 1 {
        Some(InviteError::UnsupportedVersion(version as u8))
    } else if encode_utf8(conversation.title).len() > MAX_INVITE_TITLE
        || conversation.members.len() > MAX_INVITE_MEMBERS {
        Some(InviteError::ExceedsLimits)
    } else if !conversation.members.contains(hex_lower(ours)) || !conversation.members.contains(
        hex_lower(remote),
    ) {
        Some(InviteError::MembershipMismatch)
    } else if conversation.kind is Direct && (conversation.id != direct_id(ours, remote)
        || conversation.members.len() != 2) {
        Some(InviteError::InconsistentDirect)
    } else if !ticket_reads {
        Some(InviteError::InvalidTicket)
    } else {
        None
    }
}

/// The conversation as we keep it: a direct one is with whoever invited us.
pub open spec fn from_our_side(conversation: ConversationView, remote: Seq<u8>) -> ConversationView {
    if conversation.kind is Direct {
        ConversationView { kind: KindView::Direct { peer_id: hex_lower(remote) }, ..conversation }
    } else {
        conversation
    }
}

/// Whether an invited replica takes the place of the current one: the higher epoch wins, and
/// within an epoch the document with the lesser id.
pub open spec fn supersedes(invited: ConversationView, current: ConversationView) -> bool {
    if invited.history_epoch != current.history_epoch {
        invited.history_epoch > current.history_epoch
    } else {
        text_lt(invited.document_id, current.document_id)
    }
}

/// What an accepted invitation changes.
#[derive(Debug)]
pub struct Adoption {
    pub conversation: ChatConversation,
    pub ticket: String,
    /// The history before the invitation was deleted for everyone.
    pub history_reset: bool,
    /// The messages of the current replica move to the invited one.
    pub migrate: bool,
    /// The document that is no longer needed.
    pub drop_document: Option<String>,
}

/// What becomes of a valid invitation.
#[derive(Debug)]
pub enum InviteOutcome {
    /// Our replica is the one to keep.
    Ignore,
    Adopt(Adoption),
}

/// Whether `outcome` is what a valid invitation leads to.
pub open spec fn outcome_matches(
    outcome: InviteOutcome,
    invited: ConversationView,
    ticket: Seq<char>,
    current: Option<ConversationView>,
) -> bool {
    match outcome {
        InviteOutcome::Ignore => current is Some && !supersedes(invited, current->0),
        InviteOutcome::Adopt(a) => {
            &&& current is Some ==> supersedes(invited, current->0)
            &&& a.conversation@ == invited
            &&& a.ticket@ == ticket
            &&& a.history_reset == (current is Some && invited.history_epoch
                > current->0.history_epoch)
            &&& a.migrate == (current is Some && !a.history_reset)
            &&& match a.drop_document {
                Some(doc) => current is Some && current->0.document_id != invited.document_id
                    && doc@ == current->0.document_id,
                None => current is None || current->0.document_id == invited.document_id,
            }
        },
    }
}

/// Judges an invitation from `remote`. `ticket_reads` says whether its ticket can be read, and
/// `current` is the replica that we have of the conversation.
pub fn accept_invite(
    ours: &NodeId,
    remote: &NodeId,
    invite: ChatInvite,
    ticket_reads: bool,
    current: Option<&StoredConversation>,
) -> (r: Result<InviteOutcome, InviteError>)
    ensures
        match r {
            Err(e) => invite_fault(
                ours@,
                remote@,
                invite.version as int,
                invite.conversation@,
                ticket_reads,
            ) == Some(e),
            Ok(outcome) => invite_fault(
                ours@,
                remote@,
                invite.version as int,
                invite.conversation@,
                ticket_reads,
            ) is None && outcome_matches(
                outcome,
                from_our_side(invite.conversation@, remote@),
                invite.ticket@,
                match current {
                    Some(stored) => Some(stored.public@),
                    None => None,
                },
            ),
        },
{
    let mut invite = invite;
    if invite.version != 1 {
        return Err(InviteError::UnsupportedVersion(invite.version));
    }
    if invite.conversation.title.as_str().as_bytes().len() > MAX_INVITE_TITLE
        || invite.conversation.members.len() > MAX_INVITE_MEMBERS {
        return Err(InviteError::ExceedsLimits);
    }
    if !is_member(&invite.conversation.members, ours) || !is_member(
        &invite.conversation.members,
        remote,
    ) {
        return Err(InviteError::MembershipMismatch);
    }
    let direct: bool = match &invite.conversation.kind {
        ConversationKind::Direct { peer_id: _ } => true,
        ConversationKind::Group => false,
    };
    if direct {
        let expected = direct_conversation_id(*ours, *remote);
        if !same_text(invite.conversation.id.as_str(), expected.as_str())
            || invite.conversation.members.len() != 2 {
            return Err(InviteError::InconsistentDirect);
        }
    }
    if !ticket_reads {
        return Err(InviteError::InvalidTicket);
    }
    if direct {
        invite.conversation.kind = ConversationKind::Direct { peer_id: remote.to_text() };
    }
    let outcome = choose_replica(invite.conversation, invite.ticket, current);
    Ok(outcome)
}

fn choose_replica(
    invited: ChatConversation,
    ticket: String,
    current: Option<&StoredConversation>,
) -> (outcome: InviteOutcome)
    ensures
        outcome_matches(
            outcome,
            invited@,
            ticket@,
            match current {
                Some(stored) => Some(stored.public@),
                None => None,
            },
        ),
{
    match current {
        None => InviteOutcome::Adopt(
            Adoption {
                conversation: invited,
                ticket,
                history_reset: false,
                migrate: false,
                drop_document: None,
            },
        ),
        Some(stored) => {
            proof {
                lemma_text_lt_total(invited.document_id@, stored.public.document_id@);
            }
            let history_reset: bool = invited.history_epoch > stored.public.history_epoch;
            let same_document: bool = same_text(
                invited.document_id.as_str(),
                stored.public.document_id.as_str(),
            );
            let earlier: bool = match relate_text(
                invited.document_id.as_str(),
                stored.public.document_id.as_str(),
            ) {
                Relation::Before => true,
                _ => false,
            };
            let replace: bool = history_reset || (invited.history_epoch
                == stored.public.history_epoch && earlier);
            if !replace {
                return InviteOutcome::Ignore;
            }
            let drop_document: Option<String> = if same_document {
                None
            } else {
                Some(stored.public.document_id.clone())
            };
            InviteOutcome::Adopt(
                Adoption {
                    conversation: invited,
                    ticket,
                    history_reset,
                    migrate: !history_reset,
                    drop_document,
                },
            )
        },
    }
}

/// The higher epoch always wins on invite, whatever the documents are called.
pub proof fn law_higher_epoch_always_wins(invited: ConversationView, current: ConversationView)
    ensures
        invited.history_epoch > current.history_epoch ==> supersedes(invited, current),
        invited.history_epoch < current.history_epoch ==> !supersedes(invited, current),
{
}

/// Of two replicas with different documents exactly one supersedes the other, and none
/// supersedes itself.
pub proof fn law_replicas_are_ordered(a: ConversationView, b: ConversationView)
    ensures
        !supersedes(a, a),
        !(supersedes(a, b) && supersedes(b, a)),
        a.document_id != b.document_id || a.history_epoch != b.history_epoch ==> supersedes(a, b)
            || supersedes(b, a),
{
    lemma_text_lt_total(a.document_id, b.document_id);
    lemma_text_lt_total(a.document_id, a.document_id);
}

/// The order of replicas is transitive.
pub proof fn law_replica_order_is_transitive(
    a: ConversationView,
    b: ConversationView,
    c: ConversationView,
)
    requires
        supersedes(a, b),
        supersedes(b, c),
    ensures
        supersedes(a, c),
{
    if a.history_epoch == b.history_epoch && b.history_epoch == c.history_epoch {
        lemma_text_lt_transitive(a.document_id, b.document_id, c.document_id);
    }
}

/// The replica kept when `invited` arrives while `current` is there.
pub open spec fn kept(current: ConversationView, invited: ConversationView) -> ConversationView {
    if supersedes(invited, current) {
        invited
    } else {
        current
    }
}

/// Peers that made the same conversation at once end with the same document, in whichever
/// order the invitations arrive.
pub proof fn law_invites_converge(a: ConversationView, b: ConversationView)
    ensures
        kept(a, b).document_id == kept(b, a).document_id,
        kept(a, b).history_epoch == kept(b, a).history_epoch,
{
    law_replicas_are_ordered(a, b);
}

/// An invitation that was adopted is ignored when it comes again.
pub proof fn law_repeated_invite_changes_nothing(current: ConversationView, invited: ConversationView)
    ensures
        kept(kept(current, invited), invited) == kept(current, invited),
{
    law_replicas_are_ordered(invited, invited);
}

/// A version 1 invitation to a group is valid, whatever its id, if its title has at most 512
/// bytes, it lists at most 128 members, we and the sender are among them, and its ticket reads.
pub proof fn law_group_invites_are_accepted(
    ours: Seq<u8>,
    remote: Seq<u8>,
    conversation: ConversationView,
)
    requires
        conversation.kind is Group,
        encode_utf8(conversation.title).len() <= 512,
        conversation.members.len() <= 128,
        conversation.members.contains(hex_lower(ours)),
        conversation.members.contains(hex_lower(remote)),
    ensures
        invite_fault(ours, remote, 1, conversation, true) is None,
        from_our_side(conversation, remote) == conversation,
{
}

/// A version 1 invitation to a direct conversation between the sender and us, and nobody else,
/// is valid if it carries their common id, a title of at most 512 bytes and a ticket that reads.
/// We keep it as a conversation with the sender, otherwise as it came.
pub proof fn law_direct_invites_are_accepted(
    ours: Seq<u8>,
    remote: Seq<u8>,
    conversation: ConversationView,
)
    requires
        conversation.kind is Direct,
        encode_utf8(conversation.title).len() <= 512,
        conversation.members.len() == 2,
        conversation.members.contains(hex_lower(ours)),
        conversation.members.contains(hex_lower(remote)),
        conversation.id == direct_id(ours, remote),
    ensures
        invite_fault(ours, remote, 1, conversation, true) is None,
        ({
            let kept = from_our_side(conversation, remote);
            &&& kept.kind == KindView::Direct { peer_id: hex_lower(remote) }
            &&& kept == (ConversationView { kind: kept.kind, ..conversation })
        }),
{
}

/// Nobody can bring us into a conversation that they or we are not a member of, take a direct
/// conversation that is not ours with them, go beyond the limits, or come without a ticket.
pub proof fn law_invites_are_refused_for_a_reason(
    ours: Seq<u8>,
    remote: Seq<u8>,
    version: u8,
    conversation: ConversationView,
    ticket_reads: bool,
)
    ensures
        ({
            let fault = invite_fault(ours, remote, version as int, conversation, ticket_reads);
            let fits = encode_utf8(conversation.title).len() <= 512 && conversation.members.len()
                <= 128;
            let members = conversation.members.contains(hex_lower(ours))
                && conversation.members.contains(hex_lower(remote));
            let consistent = conversation.kind is Direct ==> conversation.id == direct_id(
                ours,
                remote,
            ) && conversation.members.len() == 2;
            &&& version != 1 <==> fault == Some(InviteError::UnsupportedVersion(version))
            &&& version == 1 && !fits <==> fault == Some(InviteError::ExceedsLimits)
            &&& version == 1 && fits && !members <==> fault == Some(
                InviteError::MembershipMismatch,
            )
            &&& version == 1 && fits && members && !consistent <==> fault == Some(
                InviteError::InconsistentDirect,
            )
            &&& version == 1 && fits && members && consistent && !ticket_reads <==> fault == Some(
                InviteError::InvalidTicket,
            )
        }),
{
}

/// Where we have no replica of a conversation, a valid invitation is adopted as it is, with its
/// ticket, and nothing is dropped or moved.
pub proof fn law_first_invite_is_adopted(
    outcome: InviteOutcome,
    invited: ConversationView,
    ticket: Seq<char>,
)
    requires
        outcome_matches(outcome, invited, ticket, None),
    ensures
        outcome is Adopt,
        outcome->Adopt_0.conversation@ == invited,
        outcome->Adopt_0.ticket@ == ticket,
        !outcome->Adopt_0.history_reset,
        !outcome->Adopt_0.migrate,
        outcome->Adopt_0.drop_document is None,
{
}

/// Where we have a replica, an invitation of a later epoch replaces it and its history; within
/// an epoch the document with the lesser id stays, and our messages move to it; any other
/// invitation leaves ours in place. A replaced document is dropped.
pub proof fn law_later_invites_replace_our_replica(
    outcome: InviteOutcome,
    invited: ConversationView,
    ticket: Seq<char>,
    current: ConversationView,
)
    requires
        outcome_matches(outcome, invited, ticket, Some(current)),
    ensures
        outcome is Adopt <==> (invited.history_epoch > current.history_epoch || (
        invited.history_epoch == current.history_epoch && text_lt(
            invited.document_id,
            current.document_id,
        ))),
        match outcome {
            InviteOutcome::Adopt(a) => {
                &&& a.conversation@ == invited
                &&& a.ticket@ == ticket
                &&& a.history_reset == (invited.history_epoch > current.history_epoch)
                &&& a.migrate == (invited.history_epoch == current.history_epoch)
                &&& a.drop_document is Some <==> invited.document_id != current.document_id
                &&& a.drop_document is Some ==> a.drop_document->0@ == current.document_id
            },
            InviteOutcome::Ignore => true,
        },
{
    lemma_text_lt_total(invited.document_id, current.document_id);
}

proof fn lemma_bytes_of_text(s: Seq<char>)
    ensures
        encode_utf8(s).len() <= 4 * s.len(),
    decreases s.len(),
{
    if s.len() > 0 {
        lemma_bytes_of_text(s.drop_first());
    }
}

/// A direct conversation that one peer makes is valid to the other when it is invited.
pub proof fn law_direct_conversations_can_be_shared(
    ours: Seq<u8>,
    peer: Seq<u8>,
    conversation: ConversationView,
)
    requires
        ours != peer,
        conversation.id == direct_id(ours, peer),
        conversation.kind == (KindView::Direct { peer_id: hex_lower(peer) }),
        members_of(seq![ours, peer], conversation.members),
        encode_utf8(conversation.title).len() <= 512,
    ensures
        invite_fault(peer, ours, 1, conversation, true) is None,
        from_our_side(conversation, ours).kind == (KindView::Direct { peer_id: hex_lower(ours) }),
{
    let keys = seq![ours, peer];
    assert(keys[0] == ours && keys[1] == peer);
    assert(keys.contains(ours) && keys.contains(peer));
    law_direct_ids_are_symmetric(ours, peer);
    law_members_are_those_invited(keys, conversation.members, ours);
    law_members_are_those_invited(keys, conversation.members, peer);
    if hex_lower(ours) == hex_lower(peer) {
        lemma_hex_lower_injective(ours, peer);
    }
    let i = choose|i: int|
        0 <= i < conversation.members.len() && conversation.members[i] == hex_lower(ours);
    let j = choose|j: int|
        0 <= j < conversation.members.len() && conversation.members[j] == hex_lower(peer);
    assert(i != j);
}

/// A group that one peer makes is valid to each member when it is invited, as far as it has at
/// most 128 members: its title always fits.
pub proof fn law_groups_can_be_shared(
    ours: Seq<u8>,
    others: Seq<Seq<u8>>,
    title: Seq<char>,
    member: Seq<u8>,
    conversation: ConversationView,
)
    requires
        others.contains(member),
        others.len() < 128,
        conversation.kind == KindView::Group,
        conversation.title == group_title(title),
        members_of(others.push(ours), conversation.members),
    ensures
        invite_fault(member, ours, 1, conversation, true) is None,
{
    let keys = others.push(ours);
    lemma_held_after_push(others, ours, member);
    lemma_held_after_push(others, ours, ours);
    law_members_are_those_invited(keys, conversation.members, ours);
    law_members_are_those_invited(keys, conversation.members, member);
    lemma_bytes_of_text(conversation.title);
}

} // verus!
