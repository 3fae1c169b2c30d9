//! What is shown of calls, and what the buttons on them do.
use vstd::prelude::*;
use crate::calls::{
    following, friend_call_enabled, held, CallDesk, CallState, Command, DeskView, Sound,
};
use crate::client_status::{call_views, Availability, GroupCallAnnouncement};
use crate::contacts::{
    display_name_of, initial_of, name_initial, name_of, peer_initial_of, Contacts, FriendView,
};
use crate::conversation::ChatConversation;
use crate::digits::{decimal, push_decimal};
use crate::group_calls::{
    incoming_call_requires_group_switch, listed_peers, opt_call, shares_call, GroupCalls,
};
use crate::node::{keys_of, parsed_key, short_form, NodeId};
use crate::roster::opt_key;
use crate::table::{Table, TableKey};
use crate::text::{
    ellipsize, ellipsized, join, joined, lemma_held_after_push, same_text, texts, trim, trimmed,
};

verus! {

// ---------------------------------------------------------------------------
// Answering and leaving
// ---------------------------------------------------------------------------

/// Whether a peer reports to be in the group call that we are in.
pub open spec fn belongs(groups: GroupCalls, key: Seq<u8>) -> bool {
    groups.local is Some && groups.reports@.contains_key(key) && shares_call(
        call_views(groups.reports@[key]@),
        groups.local->0@.call_id,
    )
}

/// Whether an incoming call belongs to the group call that we are in.
pub fn incoming_belongs_to_local_group(groups: &GroupCalls, node: &NodeId) -> (r: bool)
    requires
        groups.wf(),
    ensures
        r == belongs(*groups, node@),
{
    match &groups.local {
        Some(call) => !incoming_call_requires_group_switch(Some(call), groups.reports.get(node)),
        None => false,
    }
}

/// The commands that end all calls but that with one peer.
pub open spec fn aborts(entries: Seq<(NodeId, CallState)>, but: Option<Seq<u8>>) -> Seq<Command>
    decreases entries.len(),
{
    if entries.len() == 0 {
        Seq::empty()
    } else {
        let rest = aborts(entries.drop_last(), but);
        if but == Some(entries.last().0@) {
            rest
        } else {
            rest.push(Command::Abort { node_id: entries.last().0 })
        }
    }
}

/// The count of hangups of our own after some more.
pub open spec fn counted(hangups: int, more: nat) -> int
    decreases more,
{
    if more == 0 {
        hangups
    } else {
        following(counted(hangups, (more - 1) as nat), u32::MAX as int)
    }
}

fn abort_calls(desk: &mut CallDesk, but: Option<NodeId>) -> (commands: Vec<Command>)
    requires
        old(desk).wf(),
    ensures
        final(desk).wf(),
        commands@ == aborts(old(desk).calls.entries@, opt_key(but)),
        final(desk)@ == (DeskView {
            voluntary_hangups: counted(old(desk)@.voluntary_hangups, commands@.len()),
            ..old(desk)@
        }),
        final(desk).calls == old(desk).calls,
{
    let ghost before = desk@;
    let ghost all = desk.calls.entries@;
    let mut commands: Vec<Command> = Vec::new();
    let mut i: usize = 0;
    assert(all.take(0) =~= Seq::empty());
    while i < desk.calls.entries.len()
        invariant
            0 <= i <= desk.calls.entries@.len(),
            desk.wf(),
            desk.calls == old(desk).calls,
            all == desk.calls.entries@,
            commands@ == aborts(all.take(i as int), opt_key(but)),
            desk@ == (DeskView {
                voluntary_hangups: counted(before.voluntary_hangups, commands@.len()),
                ..before
            }),
        decreases desk.calls.entries@.len() - i,
    {
        let node = desk.calls.entries[i].0;
        assert(all.take(i as int + 1).drop_last() =~= all.take(i as int));
        let spared = match &but {
            Some(other) => other.same(&node),
            None => false,
        };
        if !spared {
            commands.push(Command::Abort { node_id: node });
            desk.count_hangup();
        }
        i += 1;
    }
    assert(all.take(all.len() as int) =~= all);
    commands
}

/// What is done when an incoming call is answered, in this order.
pub struct Answer {
    pub aborts: Vec<Command>,
    /// The peers that are told that we leave the group call, if we do.
    pub leave: Option<Vec<NodeId>>,
    pub accept: Command,
}

/// Whether answering a call means leaving the group call that we are in.
pub open spec fn switches(groups: GroupCalls, key: Seq<u8>) -> bool {
    groups.local is Some && !belongs(groups, key)
}

/// Answers an incoming call. One that is no part of the group call that we are in ends all other
/// calls first, and then the group call.
pub fn accept_incoming_call(
    desk: &mut CallDesk,
    groups: &mut GroupCalls,
    node: NodeId,
    conversations: &Table<String, ChatConversation>,
    our_node_id: &Option<NodeId>,
) -> (r: Answer)
    requires
        old(desk).wf(),
        old(groups).wf(),
        conversations.wf(),
    ensures
        final(desk).wf(),
        final(groups).wf(),
        r.accept == (Command::HandleIncoming { node_id: node, accept: true }),
        !switches(*old(groups), node@) ==> r.aborts@.len() == 0 && r.leave is None
            && *final(groups) == *old(groups) && final(desk)@ == old(desk)@,
        switches(*old(groups), node@) ==> r.aborts@ == aborts(
            old(desk).calls.entries@,
            Some(node@),
        ) && r.leave is Some && keys_of(r.leave->0@) == ({
            let id = old(groups).local->0@.conversation_id;
            if conversations@.contains_key(id) {
                listed_peers(conversations@[id]@.members, opt_key(*our_node_id))
            } else {
                Seq::empty()
            }
        }) && final(groups).local is None && final(groups).reports == old(groups).reports
            && final(groups).seen == old(groups).seen && final(groups).status == old(groups).status
            && final(desk)@ == (DeskView {
            voluntary_hangups: counted(old(desk)@.voluntary_hangups, r.aborts@.len()),
            ..old(desk)@
        }),
{
    let accept = Command::HandleIncoming { node_id: node, accept: true };
    let away = groups.local.is_some() && !incoming_belongs_to_local_group(groups, &node);
    if away {
        let aborts = abort_calls(desk, Some(node));
        let leave = groups.leave_group_call(conversations, our_node_id);
        Answer { aborts, leave, accept }
    } else {
        Answer { aborts: Vec::new(), leave: None, accept }
    }
}

/// What is done when all calls are left.
pub struct Leaving {
    pub sound: Option<Sound>,
    pub aborts: Vec<Command>,
    pub leave: Option<Vec<NodeId>>,
}

/// Leaves all calls, and the group call.
pub fn leave_all_calls(
    desk: &mut CallDesk,
    groups: &mut GroupCalls,
    conversations: &Table<String, ChatConversation>,
    our_node_id: &Option<NodeId>,
) -> (r: Leaving)
    requires
        old(desk).wf(),
        old(groups).wf(),
        conversations.wf(),
    ensures
        final(desk).wf(),
        final(groups).wf(),
        r.aborts@ == aborts(old(desk).calls.entries@, None),
        r.sound == if old(desk).calls.entries@.len() > 0 {
            Some(Sound::Whoosh1)
        } else {
            None
        },
        final(desk)@ == (DeskView {
            voluntary_hangups: counted(old(desk)@.voluntary_hangups, r.aborts@.len()),
            ..old(desk)@
        }),
        final(groups).local is None,
        final(groups).reports == old(groups).reports,
        final(groups).seen == old(groups).seen,
        final(groups).status == old(groups).status,
        r.leave is Some <==> old(groups).local is Some,
        r.leave is Some ==> keys_of(r.leave->0@) == ({
            let id = old(groups).local->0@.conversation_id;
            if conversations@.contains_key(id) {
                listed_peers(conversations@[id]@.members, opt_key(*our_node_id))
            } else {
                Seq::empty()
            }
        }),
{
    let sound = if desk.calls.entries.len() > 0 {
        Some(Sound::Whoosh1)
    } else {
        None
    };
    let aborts = abort_calls(desk, None);
    let leave = groups.leave_group_call(conversations, our_node_id);
    Leaving { sound, aborts, leave }
}

// ---------------------------------------------------------------------------
// The indicator in the top bar
// ---------------------------------------------------------------------------

/// How urgent a call is.
#[derive(Clone, Copy, Debug, PartialEq, Eq, Structural)]
pub enum Tone {
    /// Somebody waits for an answer.
    Waiting,
    /// A call goes on.
    Good,
    /// We wait for an answer.
    Dialing,
}

/// A call in short.
pub struct Indicator {
    pub label: String,
    pub tone: Tone,
    pub detail: String,
}

/// The contents of an `Indicator`.
pub struct IndicatorView {
    pub label: Seq<char>,
    pub tone: Tone,
    pub detail: Seq<char>,
}

impl View for Indicator {
    type V = IndicatorView;

    open spec fn view(&self) -> IndicatorView {
        IndicatorView { label: self.label@, tone: self.tone, detail: self.detail@ }
    }
}

/// The peers whose call is in a state.
pub open spec fn peers_in(entries: Seq<(NodeId, CallState)>, state: CallState) -> Seq<Seq<u8>>
    decreases entries.len(),
{
    if entries.len() == 0 {
        Seq::empty()
    } else {
        let rest = peers_in(entries.drop_last(), state);
        if entries.last().1 == state {
            rest.push(entries.last().0@)
        } else {
            rest
        }
    }
}

/// How peers are shown.
pub open spec fn shown_names(friends: Seq<FriendView>, keys: Seq<Seq<u8>>) -> Seq<Seq<char>> {
    Seq::new(keys.len(), |i: int| display_name_of(friends, keys[i]))
}

/// The first of some names, and how many more there are.
pub open spec fn first_and_more(prefix: Seq<char>, names: Seq<Seq<char>>) -> Seq<char> {
    if names.len() == 1 {
        prefix + names[0]
    } else {
        prefix + names[0] + " +"@ + decimal((names.len() - 1) as nat)
    }
}

/// The first peer that calls and does not belong to the group call that we are in.
pub open spec fn first_waiting(entries: Seq<(NodeId, CallState)>, groups: GroupCalls) -> Option<
    Seq<u8>,
>
    decreases entries.len(),
{
    if entries.len() == 0 {
        None
    } else {
        match first_waiting(entries.drop_last(), groups) {
            Some(key) => Some(key),
            None => if entries.last().1 == CallState::Incoming && !belongs(
                groups,
                entries.last().0@,
            ) {
                Some(entries.last().0@)
            } else {
                None
            },
        }
    }
}

/// The larger of two numbers.
pub open spec fn larger(a: int, b: int) -> int {
    if a >= b {
        a
    } else {
        b
    }
}

/// What the top bar shows: who waits while we are in a group call, that group call, or else the
/// incoming calls before the active ones and those before the ones we make.
pub open spec fn indicator_of(
    entries: Seq<(NodeId, CallState)>,
    groups: GroupCalls,
    friends: Seq<FriendView>,
) -> Option<IndicatorView> {
    let incoming = shown_names(friends, peers_in(entries, CallState::Incoming));
    let active = shown_names(friends, peers_in(entries, CallState::Active));
    let calling = shown_names(friends, peers_in(entries, CallState::Calling));
    match opt_call(groups.local) {
        Some(call) => match first_waiting(entries, groups) {
            Some(key) => {
                let name = display_name_of(friends, key);
                Some(
                    IndicatorView {
                        label: "Call waiting · "@ + name,
                        tone: Tone::Waiting,
                        detail: name + " is calling while you are in "@ + call.title,
                    },
                )
            },
            None => Some(
                IndicatorView {
                    label: "In group call · "@ + call.title,
                    tone: Tone::Good,
                    detail: call.title + " · "@ + decimal(
                        larger(call.participants.len() as int, active.len() as int + 1) as nat,
                    ) + " in call"@,
                },
            ),
        },
        None => if incoming.len() > 0 {
            Some(
                IndicatorView {
                    label: first_and_more("Incoming · "@, incoming),
                    tone: Tone::Waiting,
                    detail: joined(incoming, ", "@),
                },
            )
        } else if active.len() > 0 {
            Some(
                IndicatorView {
                    label: first_and_more("In call · "@, active),
                    tone: Tone::Good,
                    detail: joined(active, ", "@),
                },
            )
        } else if calling.len() > 0 {
            Some(
                IndicatorView {
                    label: first_and_more("Calling · "@, calling),
                    tone: Tone::Dialing,
                    detail: joined(calling, ", "@),
                },
            )
        } else {
            None
        },
    }
}

fn names_in(desk: &CallDesk, contacts: &Contacts, state: CallState) -> (names: Vec<String>)
    ensures
        texts(names@) == shown_names(contacts@, peers_in(desk.calls.entries@, state)),
        names@.len() <= desk.calls.entries@.len(),
{
    let ghost all = desk.calls.entries@;
    let mut names: Vec<String> = Vec::new();
    let mut i: usize = 0;
    assert(texts(names@) =~= shown_names(contacts@, peers_in(all.take(0), state)));
    while i < desk.calls.entries.len()
        invariant
            0 <= i <= desk.calls.entries@.len(),
            all == desk.calls.entries@,
            names@.len() <= i,
            texts(names@) == shown_names(contacts@, peers_in(all.take(i as int), state)),
        decreases desk.calls.entries@.len() - i,
    {
        let ghost before = texts(names@);
        assert(all.take(i as int + 1).drop_last() =~= all.take(i as int));
        if desk.calls.entries[i].1 == state {
            let name = contacts.peer_display_name(&desk.calls.entries[i].0);
            names.push(name);
            assert(texts(names@) =~= before.push(name@));
            assert(texts(names@) =~= shown_names(contacts@, peers_in(all.take(i as int + 1), state)));
        }
        i += 1;
    }
    assert(all.take(all.len() as int) =~= all);
    names
}

fn label_names(prefix: &str, names: &Vec<String>) -> (s: String)
    requires
        names@.len() > 0,
    ensures
        s@ == first_and_more(prefix@, texts(names@)),
{
    let mut s: String = prefix.to_owned();
    s.append(names[0].as_str());
    if names.len() > 1 {
        s.append(" +");
        push_decimal(&mut s, (names.len() - 1) as u64);
    }
    s
}

/// What the top bar shows of calls.
pub fn active_call_indicator(desk: &CallDesk, groups: &GroupCalls, contacts: &Contacts) -> (r:
    Option<Indicator>)
    requires
        desk.wf(),
        desk.calls.entries@.len() < usize::MAX,
        groups.wf(),
    ensures
        match r {
            Some(indicator) => indicator_of(desk.calls.entries@, *groups, contacts@) == Some(
                indicator@,
            ),
            None => indicator_of(desk.calls.entries@, *groups, contacts@) is None,
        },
{
    let active = names_in(desk, contacts, CallState::Active);
    match &groups.local {
        Some(call) => {
            match find_waiting(desk, groups) {
                Some(node) => {
                    let name = contacts.peer_display_name(&node);
                    let mut label: String = "Call waiting · ".to_owned();
                    label.append(name.as_str());
                    let mut detail: String = name;
                    detail.append(" is calling while you are in ");
                    detail.append(call.title.as_str());
                    Some(Indicator { label, tone: Tone::Waiting, detail })
                },
                None => {
                    let mut label: String = "In group call · ".to_owned();
                    label.append(call.title.as_str());
                    let listed: u64 = call.participants.len() as u64;
                    let speaking: u64 = active.len() as u64;
                    let mut detail: String = call.title.clone();
                    detail.append(" · ");
                    if listed > speaking {
                        push_decimal(&mut detail, listed);
                    } else {
                        push_decimal(&mut detail, 1 + speaking);
                    }
                    detail.append(" in call");
                    Some(Indicator { label, tone: Tone::Good, detail })
                },
            }
        },
        None => {
            let incoming = names_in(desk, contacts, CallState::Incoming);
            if incoming.len() > 0 {
                return Some(
                    Indicator {
                        label: label_names("Incoming · ", &incoming),
                        tone: Tone::Waiting,
                        detail: join(&incoming, ", "),
                    },
                );
            }
            if active.len() > 0 {
                return Some(
                    Indicator {
                        label: label_names("In call · ", &active),
                        tone: Tone::Good,
                        detail: join(&active, ", "),
                    },
                );
            }
            let calling = names_in(desk, contacts, CallState::Calling);
            if calling.len() > 0 {
                return Some(
                    Indicator {
                        label: label_names("Calling · ", &calling),
                        tone: Tone::Dialing,
                        detail: join(&calling, ", "),
                    },
                );
            }
            None
        },
    }
}

fn find_waiting(desk: &CallDesk, groups: &GroupCalls) -> (r: Option<NodeId>)
    requires
        groups.wf(),
    ensures
        match r {
            Some(node) => first_waiting(desk.calls.entries@, *groups) == Some(node@),
            None => first_waiting(desk.calls.entries@, *groups) is None,
        },
{
    let ghost all = desk.calls.entries@;
    let mut found: Option<NodeId> = None;
    let mut i: usize = 0;
    assert(all.take(0) =~= Seq::empty());
    while i < desk.calls.entries.len()
        invariant
            0 <= i <= desk.calls.entries@.len(),
            groups.wf(),
            all == desk.calls.entries@,
            match found {
                Some(node) => first_waiting(all.take(i as int), *groups) == Some(node@),
                None => first_waiting(all.take(i as int), *groups) is None,
            },
        decreases desk.calls.entries@.len() - i,
    {
        let (node, state) = desk.calls.entries[i];
        assert(all.take(i as int + 1).drop_last() =~= all.take(i as int));
        if found.is_none() && state == CallState::Incoming && !incoming_belongs_to_local_group(
            groups,
            &node,
        ) {
            found = Some(node);
        }
        i += 1;
    }
    assert(all.take(all.len() as int) =~= all);
    found
}

/// What the top bar shows of sharing beside a call.
pub fn sharing_note(sharing_active: bool, system_audio_active: bool) -> (r: Option<&'static str>)
    ensures
        match r {
            Some(s) => sharing_active && s@ == if system_audio_active {
                "· sharing audio"@
            } else {
                "· sharing"@
            },
            None => !sharing_active,
        },
{
    if !sharing_active {
        None
    } else if system_audio_active {
        Some("· sharing audio")
    } else {
        Some("· sharing")
    }
}

/// What the top bar shows where there is no call.
pub fn idle_status(sharing_active: bool, system_audio_active: bool, connected: bool) -> (s:
    &'static str)
    ensures
        s@ == if sharing_active && system_audio_active {
            "Sharing screen + audio"@
        } else if sharing_active {
            "Sharing screen"@
        } else if connected {
            "Ready"@
        } else {
            "Connecting…"@
        },
{
    if sharing_active && system_audio_active {
        "Sharing screen + audio"
    } else if sharing_active {
        "Sharing screen"
    } else if connected {
        "Ready"
    } else {
        "Connecting…"
    }
}

/// What the top bar shows of messages.
pub fn chat_status(service_failed: bool, connected: bool) -> (s: &'static str)
    ensures
        s@ == if service_failed {
            "Chat unavailable"@
        } else if connected {
            "Chat ready"@
        } else {
            "Connecting…"@
        },
{
    if service_failed {
        "Chat unavailable"
    } else if connected {
        "Chat ready"
    } else {
        "Connecting…"
    }
}

/// What the sharing button says when pointed at.
pub fn share_tip(sharing_active: bool, system_audio_active: bool, in_call: bool) -> (s: &'static str)
    ensures
        s@ == if sharing_active && system_audio_active {
            "Stop sharing your screen and computer sound"@
        } else if sharing_active {
            "Stop sharing"@
        } else if !in_call {
            "Join a call before sharing your screen"@
        } else {
            "Share your screen"@
        },
{
    if sharing_active && system_audio_active {
        "Stop sharing your screen and computer sound"
    } else if sharing_active {
        "Stop sharing"
    } else if !in_call {
        "Join a call before sharing your screen"
    } else {
        "Share your screen"
    }
}

// ---------------------------------------------------------------------------
// Participants
// ---------------------------------------------------------------------------

/// What a participant's chip says beside the name.
#[derive(Clone, Copy, Debug, PartialEq, Eq, Structural)]
pub enum ChipStatus {
    Nothing,
    /// Its stream is not watched.
    Paused,
    /// It shares its screen.
    Streaming,
    CallWaiting,
    Incoming,
    Connecting,
    Ended,
}

/// The text of a chip's status; sharing is shown by an icon alone.
pub fn chip_status_text(status: ChipStatus) -> (r: Option<&'static str>)
    ensures
        match r {
            Some(s) => s@ == match status {
                ChipStatus::Paused => "paused"@,
                ChipStatus::CallWaiting => "call waiting"@,
                ChipStatus::Incoming => "incoming"@,
                ChipStatus::Connecting => "connecting"@,
                _ => "ended"@,
            } && status != ChipStatus::Nothing && status != ChipStatus::Streaming,
            None => status == ChipStatus::Nothing || status == ChipStatus::Streaming,
        },
{
    match status {
        ChipStatus::Nothing => None,
        ChipStatus::Streaming => None,
        ChipStatus::Paused => Some("paused"),
        ChipStatus::CallWaiting => Some("call waiting"),
        ChipStatus::Incoming => Some("incoming"),
        ChipStatus::Connecting => Some("connecting"),
        ChipStatus::Ended => Some("ended"),
    }
}

/// A participant's chip.
pub struct Chip {
    pub initial: String,
    pub name: String,
    pub active: bool,
    pub call_waiting: bool,
    /// Whether watching can be resumed.
    pub watch: bool,
    pub status: ChipStatus,
}

/// Whether a peer's newest stream is left unwatched.
pub open spec fn is_stopped(desk: DeskView, key: Seq<u8>) -> bool {
    desk.stopped.contains_key(key) && held(desk.generations, key) == Some(desk.stopped[key])
}

/// Whether a peer's picture has a size.
pub open spec fn is_streaming(desk: DeskView, key: Seq<u8>) -> bool {
    desk.frames.contains_key(key) && desk.frames[key].width > 0 && desk.frames[key].height > 0
}

/// What a participant's chip says beside the name: what can be seen of it, or else how far the
/// call has come.
pub open spec fn chip_status(
    desk: DeskView,
    key: Seq<u8>,
    state: CallState,
    call_waiting: bool,
) -> ChipStatus {
    if is_stopped(desk, key) {
        ChipStatus::Paused
    } else if is_streaming(desk, key) {
        ChipStatus::Streaming
    } else {
        match state {
            CallState::Incoming => if call_waiting {
                ChipStatus::CallWaiting
            } else {
                ChipStatus::Incoming
            },
            CallState::Calling => ChipStatus::Connecting,
            CallState::Active => ChipStatus::Nothing,
            CallState::Aborted => ChipStatus::Ended,
        }
    }
}

/// The chip of a participant.
pub fn participant_chip(
    desk: &CallDesk,
    groups: &GroupCalls,
    contacts: &Contacts,
    node: &NodeId,
    state: CallState,
) -> (chip: Chip)
    requires
        desk.wf(),
        groups.wf(),
    ensures
        chip.initial@ == peer_initial_of(contacts@, node@),
        chip.name@ == ellipsized(display_name_of(contacts@, node@), 16),
        chip.active == (state == CallState::Active),
        chip.call_waiting == (state == CallState::Incoming && switches(*groups, node@)),
        chip.watch == (is_stopped(desk@, node@) && (state == CallState::Calling || state
            == CallState::Active)),
        chip.status == chip_status(desk@, node@, state, chip.call_waiting),
{
    let call_waiting = state == CallState::Incoming && groups.local.is_some()
        && !incoming_belongs_to_local_group(groups, node);
    let streaming = match desk.frames.get(node) {
        Some(frame) => frame.width > 0 && frame.height > 0,
        None => false,
    };
    let stopped = match desk.stopped.get(node) {
        Some(stopped) => match desk.generations.get(node) {
            Some(current) => *current == *stopped,
            None => false,
        },
        None => false,
    };
    let status = if stopped {
        ChipStatus::Paused
    } else if streaming {
        ChipStatus::Streaming
    } else {
        match state {
            CallState::Incoming => if call_waiting {
                ChipStatus::CallWaiting
            } else {
                ChipStatus::Incoming
            },
            CallState::Calling => ChipStatus::Connecting,
            CallState::Active => ChipStatus::Nothing,
            CallState::Aborted => ChipStatus::Ended,
        }
    };
    Chip {
        initial: contacts.peer_initial(node),
        name: ellipsize(contacts.peer_display_name(node).as_str(), 16),
        active: state == CallState::Active,
        call_waiting,
        watch: stopped && (state == CallState::Calling || state == CallState::Active),
        status,
    }
}

/// The texts of the button that answers a call: on it, and when pointed at.
pub fn answer_texts(call_waiting: bool) -> (r: (&'static str, &'static str))
    ensures
        r.0@ == if call_waiting {
            "End & accept"@
        } else {
            "Accept"@
        },
        r.1@ == if call_waiting {
            "Leave the group call and answer this call"@
        } else {
            "Answer this call"@
        },
{
    if call_waiting {
        ("End & accept", "Leave the group call and answer this call")
    } else {
        ("Accept", "Answer this call")
    }
}

// ---------------------------------------------------------------------------
// Contacts
// ---------------------------------------------------------------------------

/// A contact as it is shown.
pub struct FriendRow {
    pub name: String,
    pub initial: String,
    pub id_label: String,
    pub peer: Option<NodeId>,
    pub availability: Option<Availability>,
    pub call_enabled: bool,
    pub call_in_progress: bool,
}

/// The name that a contact is shown by.
pub open spec fn row_name(friend: FriendView) -> Seq<char> {
    if trimmed(friend.name).len() == 0 || trimmed(friend.name) == trimmed(friend.node_id) {
        "Unnamed contact"@
    } else {
        trimmed(friend.name)
    }
}

/// The key that a contact names.
pub open spec fn row_key(friend: FriendView) -> Option<Seq<u8>> {
    match parsed_key(trimmed(friend.node_id)) {
        Ok(key) => Some(key),
        Err(_) => None,
    }
}

/// Whether a contact can be called.
pub open spec fn callable(calls: Map<Seq<u8>, CallState>, key: Seq<u8>) -> bool {
    !calls.contains_key(key) || calls[key] == CallState::Aborted
}

/// The contact with this index as it is shown.
pub fn friend_row(contacts: &Contacts, index: usize, groups: &GroupCalls, desk: &CallDesk) -> (row:
    FriendRow)
    requires
        index < contacts@.len(),
        groups.wf(),
        desk.wf(),
    ensures
        ({
            let friend = contacts@[index as int];
            &&& row.name@ == row_name(friend)
            &&& row.initial@ == initial_of(row_name(friend))
            &&& opt_key(row.peer) == row_key(friend)
            &&& row.id_label@ == match row_key(friend) {
                Some(key) => short_form(key),
                None => "invalid id"@,
            }
            &&& row.availability == match row_key(friend) {
                Some(key) => held(groups.status@, key),
                None => None,
            }
            &&& row.call_enabled == match row_key(friend) {
                Some(key) => callable(desk@.calls, key),
                None => false,
            }
            &&& row.call_in_progress == match row_key(friend) {
                Some(key) => !callable(desk@.calls, key),
                None => false,
            }
        }),
{
    let friend = &contacts.friends[index];
    assert(contacts@[index as int] == friend@);
    let id = trim(friend.node_id.as_str());
    let given = trim(friend.name.as_str());
    let name: String = if given.as_str().unicode_len() == 0 || same_text(
        given.as_str(),
        id.as_str(),
    ) {
        "Unnamed contact".to_owned()
    } else {
        given
    };
    let initial = name_initial(name.as_str());
    match NodeId::parse(id.as_str()) {
        Ok(node) => {
            let availability = match groups.status.get(&node) {
                Some(availability) => Some(*availability),
                None => None,
            };
            let call_enabled = friend_call_enabled(desk.call_state(&node));
            FriendRow {
                name,
                initial,
                id_label: node.fmt_short(),
                peer: Some(node),
                availability,
                call_enabled,
                call_in_progress: !call_enabled,
            }
        },
        Err(_) => FriendRow {
            name,
            initial,
            id_label: "invalid id".to_owned(),
            peer: None,
            availability: None,
            call_enabled: false,
            call_in_progress: false,
        },
    }
}

/// How the state of a peer is shown.
pub fn availability_text(availability: Availability) -> (s: &'static str)
    ensures
        s@ == match availability {
            Availability::Online => "• Online"@,
            Availability::Offline => "• Offline"@,
        },
{
    match availability {
        Availability::Online => "• Online",
        Availability::Offline => "• Offline",
    }
}

/// What the field for a key says of what was typed or pasted in. An empty field asks for a key,
/// unless it was pasted so.
pub open spec fn dial_text(input: Seq<char>, pasted: bool, friends: Seq<FriendView>) -> Seq<char> {
    if input.len() == 0 && !pasted {
        "Enter a node ID to call"@
    } else {
        match parsed_key(trimmed(input)) {
            Ok(key) => match name_of(friends, key) {
                Some(name) => "Ready to call "@ + name,
                None => "Valid node ID"@,
            },
            Err(problem) => "Invalid ID: "@ + problem,
        }
    }
}

/// What the field for a key says, and the peer that can be called.
pub fn dial_status(input: &str, pasted: bool, contacts: &Contacts) -> (r: (String, Option<NodeId>))
    ensures
        r.0@ == dial_text(input@, pasted, contacts@),
        opt_key(r.1) == if input@.len() == 0 && !pasted {
            None
        } else {
            match parsed_key(trimmed(input@)) {
                Ok(key) => Some(key),
                Err(_) => None,
            }
        },
{
    if input.unicode_len() == 0 && !pasted {
        return ("Enter a node ID to call".to_owned(), None);
    }
    match NodeId::parse(trim(input).as_str()) {
        Ok(node) => match contacts.friend_name(&node) {
            Some(name) => {
                let mut s: String = "Ready to call ".to_owned();
                s.append(name.as_str());
                (s, Some(node))
            },
            None => ("Valid node ID".to_owned(), Some(node)),
        },
        Err(problem) => {
            let mut s: String = "Invalid ID: ".to_owned();
            s.append(problem.as_str());
            (s, None)
        },
    }
}

// ---------------------------------------------------------------------------
// Groups
// ---------------------------------------------------------------------------

/// What the button for a group's call says.
pub fn group_call_button(already_joined: bool, call_goes_on: bool) -> (r: (&'static str, &'static str))
    ensures
        r.0@ == if already_joined {
            "Open call"@
        } else if call_goes_on {
            "Join call"@
        } else {
            "Start call"@
        },
        r.1@ == if call_goes_on {
            "Join the active group call"@
        } else {
            "Ring group members who are currently online"@
        },
{
    let tip = if call_goes_on {
        "Join the active group call"
    } else {
        "Ring group members who are currently online"
    };
    if already_joined {
        ("Open call", tip)
    } else if call_goes_on {
        ("Join call", tip)
    } else {
        ("Start call", tip)
    }
}

/// What the list of conversations says below a group's name.
pub open spec fn group_line(
    participants: Option<nat>,
    missed: bool,
    members: Seq<char>,
) -> Seq<char> {
    match participants {
        Some(count) => "● Active call · "@ + decimal(
            if count > 1 {
                count
            } else {
                1
            },
        ) + " "@ + (if count == 1 {
            "participant"@
        } else {
            "participants"@
        }),
        None => if missed {
            "Missed group call"@
        } else {
            members
        },
    }
}

/// What the list of conversations says below a group's name: the call that goes on, one that was
/// missed, or the members.
pub fn group_summary(call: &Option<GroupCallAnnouncement>, missed: bool, members: String) -> (s:
    String)
    ensures
        s@ == group_line(
            match *call {
                Some(call) => Some(call@.participants.len()),
                None => None,
            },
            missed,
            members@,
        ),
{
    match call {
        Some(call) => {
            let count: usize = call.participants.len();
            let mut s: String = "● Active call · ".to_owned();
            push_decimal(&mut s, if count > 1 { count as u64 } else { 1 });
            s.append(" ");
            if count == 1 {
                s.append("participant");
            } else {
                s.append("participants");
            }
            s
        },
        None => if missed {
            "Missed group call".to_owned()
        } else {
            members
        },
    }
}

// ---------------------------------------------------------------------------
// Laws
// ---------------------------------------------------------------------------

proof fn lemma_aborts(entries: Seq<(NodeId, CallState)>, but: Option<Seq<u8>>, i: int)
    requires
        0 <= i < entries.len(),
        but != Some(entries[i].0@),
    ensures
        aborts(entries, but).contains(Command::Abort { node_id: entries[i].0 }),
    decreases entries.len(),
{
    let rest = entries.drop_last();
    let all = aborts(entries, but);
    if i < rest.len() {
        assert(rest[i] == entries[i]);
        lemma_aborts(rest, but, i);
        let before = aborts(rest, but);
        let k = choose|k: int|
            0 <= k < before.len() && before[k] == (Command::Abort { node_id: entries[i].0 });
        assert(all[k] == before[k]);
    } else {
        assert(all[all.len() - 1] == (Command::Abort { node_id: entries[i].0 }));
    }
}

/// Answering a call that is no part of the group call ends every other call.
pub proof fn law_switching_ends_the_other_calls(
    desk: CallDesk,
    groups: GroupCalls,
    answered: Seq<u8>,
    other: Seq<u8>,
)
    requires
        desk.wf(),
        switches(groups, answered),
        desk@.calls.contains_key(other),
        other != answered,
    ensures
        exists|node: NodeId|
            node@ == other && #[trigger] aborts(desk.calls.entries@, Some(answered)).contains(
                Command::Abort { node_id: node },
            ),
{
    let i = desk.calls.lemma_held(other);
    let node = desk.calls.entries@[i].0;
    assert(node.name() == other);
    lemma_aborts(desk.calls.entries@, Some(answered), i);
}

/// A call from somebody in the same group call is answered without leaving it.
pub proof fn law_same_group_call_is_kept(groups: GroupCalls, key: Seq<u8>)
    requires
        belongs(groups, key),
    ensures
        !switches(groups, key),
{
}

/// A peer shares the group call that we are in exactly if it reports that very call as going on;
/// answering anybody else means leaving it, and without a group call nothing is left.
pub proof fn law_only_other_calls_make_us_leave(groups: GroupCalls, key: Seq<u8>)
    ensures
        groups.local is None ==> !switches(groups, key),
        groups.local is Some ==> (switches(groups, key) <==> !(groups.reports@.contains_key(key)
            && exists|i: int|
            0 <= i < groups.reports@[key]@.len() && (#[trigger] groups.reports@[key]@[i]).call_id@
                == groups.local->0.call_id@ && groups.reports@[key]@[i].ended_at_ms is None)),
{
    if groups.local is Some && groups.reports@.contains_key(key) {
        let reports = groups.reports@[key]@;
        let calls = call_views(reports);
        let id = groups.local->0@.call_id;
        if shares_call(calls, id) {
            let i = choose|i: int|
                0 <= i < calls.len() && (#[trigger] calls[i]).call_id == id && calls[i].ended_at_ms
                    is None;
            assert(reports[i].call_id@ == id);
        }
        if exists|i: int|
            0 <= i < reports.len() && (#[trigger] reports[i]).call_id@ == id
                && reports[i].ended_at_ms is None {
            let i = choose|i: int|
                0 <= i < reports.len() && (#[trigger] reports[i]).call_id@ == id
                    && reports[i].ended_at_ms is None;
            assert(calls[i].call_id == id);
        }
    }
}

/// The call that is answered is not ended with the others; leaving all calls ends each of them.
pub proof fn law_answered_call_goes_on(
    entries: Seq<(NodeId, CallState)>,
    answered: Seq<u8>,
    node: NodeId,
)
    ensures
        node@ == answered ==> !aborts(entries, Some(answered)).contains(
            Command::Abort { node_id: node },
        ),
        aborts(entries, None).len() == entries.len(),
        forall|i: int|
            0 <= i < entries.len() ==> #[trigger] aborts(entries, None)[i] == (Command::Abort {
                node_id: entries[i].0,
            }),
    decreases entries.len(),
{
    if entries.len() > 0 {
        let shorter = entries.drop_last();
        law_answered_call_goes_on(shorter, answered, node);
        lemma_held_after_push(
            aborts(shorter, Some(answered)),
            Command::Abort { node_id: entries.last().0 },
            Command::Abort { node_id: node },
        );
        assert forall|i: int| 0 <= i < entries.len() implies #[trigger] aborts(entries, None)[i]
            == (Command::Abort { node_id: entries[i].0 }) by {
            if i < shorter.len() {
                assert(aborts(shorter, None)[i] == (Command::Abort { node_id: shorter[i].0 }));
            }
        }
    }
}

/// Each call that we end is counted, so that none of their ends sounds as a failure.
pub proof fn law_hangups_are_counted(hangups: int, more: nat)
    requires
        0 <= hangups,
        hangups + more <= u32::MAX,
    ensures
        counted(hangups, more) == hangups + more,
    decreases more,
{
    if more > 0 {
        law_hangups_are_counted(hangups, (more - 1) as nat);
    }
}

proof fn lemma_peers_in(entries: Seq<(NodeId, CallState)>, state: CallState)
    ensures
        peers_in(entries, state).len() > 0 <==> exists|i: int|
            0 <= i < entries.len() && (#[trigger] entries[i]).1 == state,
    decreases entries.len(),
{
    if entries.len() > 0 {
        let shorter = entries.drop_last();
        lemma_peers_in(shorter, state);
        assert(entries[entries.len() - 1] == entries.last());
        if exists|i: int| 0 <= i < shorter.len() && (#[trigger] shorter[i]).1 == state {
            let i = choose|i: int| 0 <= i < shorter.len() && (#[trigger] shorter[i]).1 == state;
            assert(entries[i] == shorter[i]);
        }
        if exists|i: int| 0 <= i < entries.len() && (#[trigger] entries[i]).1 == state {
            let i = choose|i: int| 0 <= i < entries.len() && (#[trigger] entries[i]).1 == state;
            if i < shorter.len() {
                assert(shorter[i] == entries[i]);
            }
        }
    }
}

proof fn lemma_first_waiting(entries: Seq<(NodeId, CallState)>, groups: GroupCalls)
    ensures
        first_waiting(entries, groups) is Some <==> exists|i: int|
            0 <= i < entries.len() && (#[trigger] entries[i]).1 == CallState::Incoming && !belongs(
                groups,
                entries[i].0@,
            ),
    decreases entries.len(),
{
    if entries.len() > 0 {
        let shorter = entries.drop_last();
        lemma_first_waiting(shorter, groups);
        assert(entries[entries.len() - 1] == entries.last());
        if first_waiting(shorter, groups) is Some {
            let i = choose|i: int|
                0 <= i < shorter.len() && (#[trigger] shorter[i]).1 == CallState::Incoming
                    && !belongs(groups, shorter[i].0@);
            assert(entries[i] == shorter[i]);
        }
        if exists|i: int|
            0 <= i < entries.len() && (#[trigger] entries[i]).1 == CallState::Incoming && !belongs(
                groups,
                entries[i].0@,
            ) {
            let i = choose|i: int|
                0 <= i < entries.len() && (#[trigger] entries[i]).1 == CallState::Incoming
                    && !belongs(groups, entries[i].0@);
            if i < shorter.len() {
                assert(shorter[i] == entries[i]);
            }
        }
    }
}

/// The top bar shows a call exactly while there is one, and the most urgent first: somebody that
/// waits for an answer, then a call that goes on, then one that we make.
pub proof fn law_urgent_calls_are_shown_first(
    entries: Seq<(NodeId, CallState)>,
    groups: GroupCalls,
    friends: Seq<FriendView>,
)
    ensures
        ({
            let shown = indicator_of(entries, groups, friends);
            let incoming = exists|i: int|
                0 <= i < entries.len() && (#[trigger] entries[i]).1 == CallState::Incoming;
            let active = exists|i: int|
                0 <= i < entries.len() && (#[trigger] entries[i]).1 == CallState::Active;
            let calling = exists|i: int|
                0 <= i < entries.len() && (#[trigger] entries[i]).1 == CallState::Calling;
            let waiting = exists|i: int|
                0 <= i < entries.len() && (#[trigger] entries[i]).1 == CallState::Incoming
                    && switches(groups, entries[i].0@);
            &&& shown is None <==> groups.local is None && !incoming && !active && !calling
            &&& groups.local is None && incoming ==> shown->0.tone == Tone::Waiting
            &&& groups.local is None && !incoming && active ==> shown->0.tone == Tone::Good
            &&& groups.local is None && !incoming && !active && calling ==> shown->0.tone
                == Tone::Dialing
            &&& groups.local is Some && waiting ==> shown->0.tone == Tone::Waiting
            &&& groups.local is Some && !waiting ==> shown->0.tone == Tone::Good
        }),
{
    lemma_peers_in(entries, CallState::Incoming);
    lemma_peers_in(entries, CallState::Active);
    lemma_peers_in(entries, CallState::Calling);
    lemma_first_waiting(entries, groups);
    if groups.local is Some && first_waiting(entries, groups) is Some {
        let i = choose|i: int|
            0 <= i < entries.len() && (#[trigger] entries[i]).1 == CallState::Incoming && !belongs(
                groups,
                entries[i].0@,
            );
        assert(switches(groups, entries[i].0@));
    }
}

/// The peers whose call is in a state are just those, and each is named.
pub proof fn law_calls_are_listed_by_their_state(
    entries: Seq<(NodeId, CallState)>,
    state: CallState,
    key: Seq<u8>,
)
    ensures
        peers_in(entries, state).contains(key) <==> exists|i: int|
            0 <= i < entries.len() && (#[trigger] entries[i]).0@ == key && entries[i].1 == state,
    decreases entries.len(),
{
    if entries.len() > 0 {
        let shorter = entries.drop_last();
        law_calls_are_listed_by_their_state(shorter, state, key);
        lemma_held_after_push(peers_in(shorter, state), entries.last().0@, key);
        assert(entries[entries.len() - 1] == entries.last());
        if peers_in(shorter, state).contains(key) {
            let i = choose|i: int|
                0 <= i < shorter.len() && (#[trigger] shorter[i]).0@ == key && shorter[i].1 == state;
            assert(entries[i] == shorter[i]);
        }
        if exists|i: int|
            0 <= i < entries.len() && (#[trigger] entries[i]).0@ == key && entries[i].1 == state {
            let i = choose|i: int|
                0 <= i < entries.len() && (#[trigger] entries[i]).0@ == key && entries[i].1 == state;
            if i < shorter.len() {
                assert(shorter[i] == entries[i]);
            }
        }
    }
}

/// A label names the first of several and counts all the others.
pub proof fn law_labels_count_the_others(prefix: Seq<char>, names: Seq<Seq<char>>, more: nat)
    requires
        names.len() == more + 1,
    ensures
        (prefix + names[0]).is_prefix_of(first_and_more(prefix, names)),
        more == 0 ==> first_and_more(prefix, names) == prefix + names[0],
        more > 0 ==> first_and_more(prefix, names) == prefix + names[0] + (" +"@ + decimal(more)),
{
    if more > 0 {
        assert(first_and_more(prefix, names) =~= prefix + names[0] + (" +"@ + decimal(more)));
    }
}

/// A chip says that a peer's newest stream is left unwatched before anything else, then that it
/// shares its screen, and else how far its call has come.
pub proof fn law_chips_show_the_stream_first(
    desk: DeskView,
    key: Seq<u8>,
    state: CallState,
    waiting: bool,
)
    ensures
        ({
            let status = chip_status(desk, key, state, waiting);
            let stopped = desk.stopped.contains_key(key) && desk.generations.contains_key(key)
                && desk.generations[key] == desk.stopped[key];
            let picture = desk.frames.contains_key(key) && desk.frames[key].width > 0
                && desk.frames[key].height > 0;
            &&& status == ChipStatus::Paused <==> stopped
            &&& status == ChipStatus::Streaming <==> !stopped && picture
            &&& !stopped && !picture ==> (status == ChipStatus::Nothing <==> state
                == CallState::Active)
            &&& !stopped && !picture ==> (status == ChipStatus::Connecting <==> state
                == CallState::Calling)
            &&& !stopped && !picture ==> (status == ChipStatus::Ended <==> state
                == CallState::Aborted)
            &&& !stopped && !picture ==> (status == ChipStatus::CallWaiting <==> state
                == CallState::Incoming && waiting)
            &&& !stopped && !picture ==> (status == ChipStatus::Incoming <==> state
                == CallState::Incoming && !waiting)
        }),
{
}

/// A contact can be called while there is no call with it, whatever its name; it is shown by that
/// name unless it is blank or only repeats the key.
pub proof fn law_contacts_without_a_call_can_be_called(
    desk: DeskView,
    friend: FriendView,
    key: Seq<u8>,
    state: CallState,
)
    ensures
        !desk.calls.contains_key(key) ==> callable(desk.calls, key),
        state != CallState::Aborted ==> !callable(desk.with_state(key, state).calls, key),
        callable(desk.with_state(key, CallState::Aborted).calls, key),
        trimmed(friend.name).len() > 0 && trimmed(friend.name) != trimmed(friend.node_id)
            ==> row_name(friend) == trimmed(friend.name),
        trimmed(friend.name).len() == 0 || trimmed(friend.name) == trimmed(friend.node_id)
            ==> row_name(friend) == "Unnamed contact"@,
{
}

/// A call that goes on is told before one that was missed, and that before the members.
pub proof fn law_active_calls_are_told_first(count: nat, missed: bool, members: Seq<char>)
    ensures
        count > 1 ==> group_line(Some(count), missed, members) == "● Active call · "@ + decimal(
            count,
        ) + " "@ + "participants"@,
        group_line(Some(1), missed, members) == "● Active call · "@ + decimal(1) + " "@
            + "participant"@,
        group_line(None, true, members) == "Missed group call"@,
        group_line(None, false, members) == members,
{
}

/// In a group call in which nobody waits, we and those we are connected to are counted where they
/// are more than the call is known to have.
pub proof fn law_group_calls_count_everybody(
    entries: Seq<(NodeId, CallState)>,
    groups: GroupCalls,
    friends: Seq<FriendView>,
)
    requires
        groups.local is Some,
        first_waiting(entries, groups) is None,
    ensures
        ({
            let call = groups.local->0@;
            let known = call.participants.len();
            let heard = shown_names(friends, peers_in(entries, CallState::Active)).len() + 1;
            let told = indicator_of(entries, groups, friends);
            &&& told is Some && told->0.tone == Tone::Good
            &&& told->0.label == "In group call · "@ + call.title
            &&& known > heard ==> told->0.detail == call.title + " · "@ + decimal(known)
                + " in call"@
            &&& known <= heard ==> told->0.detail == call.title + " · "@ + decimal(heard)
                + " in call"@
        }),
{
}

} // verus!
