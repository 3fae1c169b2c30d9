//! The panels and dialogs around chats and calls.
use vstd::prelude::*;
use crate::call_view::group_call_button;
use crate::calls::{some_call, stop_sharing_command, CallDesk, CallState, Command, DeskView, Sound};
use crate::chat_view::{candidate_name, display_title, group_request, table_keys, GROUP_INCOMPLETE};
use crate::contacts::{
    by_name, display_name_of, is_contact, peer_label, title_initial, title_initial_of, Contacts,
    FriendView,
};
use crate::conversation::{direct_peer_of, ChatConversation, ConversationKind, KindView};
use crate::digits::{hex_lower, push_signed, signed_decimal};
use crate::group_calls::{latest_call, law_shown_call_goes_on, GroupCalls};
use crate::node::{keys_of, NodeId};
use crate::notifications::{notice_spec, NotificationKind, NotificationSpec};
use crate::roster::{
    format_group_member_summary, group_labels, group_members_for, label_texts, member_names,
    opt_key,
};
use crate::session::is_notice;
use crate::streams::{choose_target, first_choice};
use crate::table::Table;
use crate::text::{ellipsize, ellipsized, joined, lemma_held_after_push, same_text, trimmed};

verus! {

// ---------------------------------------------------------------------------
// The header of a conversation
// ---------------------------------------------------------------------------

/// The large button in the header of a conversation.
#[derive(Clone, Copy, Debug, PartialEq, Eq, Structural)]
pub enum HeaderButton {
    /// There is no room, or nothing to offer.
    Nothing,
    /// Call the peer.
    StartCall,
    /// Make the peer a contact.
    AddFriend,
    /// Go to the group's call that we are in.
    OpenGroupCall,
    /// Enter the group's call that goes on.
    JoinGroupCall,
    /// Begin a call of the group.
    StartGroupCall,
}

/// The header of a conversation.
pub struct ChatHeader {
    pub title: String,
    pub initial: String,
    pub subtitle: String,
    /// Whether the members can be listed.
    pub members: bool,
    pub button: HeaderButton,
    /// Whether the menu offers to make the peer a contact.
    pub menu_adds_friend: bool,
}

/// What is said below the title of a conversation.
pub open spec fn subtitle_of(
    kind: KindView,
    members: Seq<Seq<char>>,
    ours: Option<Seq<u8>>,
    friends: Seq<FriendView>,
) -> Seq<char> {
    match kind {
        KindView::Direct { .. } => "Direct message"@,
        KindView::Group => {
            let labels = group_labels(members, ours, member_names(members, friends));
            if labels.len() == 0 {
                "No members"@
            } else {
                joined(label_texts(labels), ", "@)
            }
        },
    }
}

/// The large button of a conversation that has room for one.
pub open spec fn header_button(
    conversation: ChatConversation,
    friends: Seq<FriendView>,
    groups: GroupCalls,
) -> HeaderButton {
    match direct_peer_of(conversation@.kind) {
        Some(peer) => if is_contact(friends, peer) {
            HeaderButton::StartCall
        } else {
            HeaderButton::AddFriend
        },
        None => if conversation@.kind is Group {
            if groups.local is Some && groups.local->0@.conversation_id == conversation@.id {
                HeaderButton::OpenGroupCall
            } else if latest_call(groups.calls(), conversation@.id) is Some {
                HeaderButton::JoinGroupCall
            } else {
                HeaderButton::StartGroupCall
            }
        } else {
            HeaderButton::Nothing
        },
    }
}

/// The header of a conversation. Without room for a large button, the menu offers what it would.
pub fn chat_header(
    conversation: &ChatConversation,
    contacts: &Contacts,
    groups: &GroupCalls,
    our_node_id: &Option<NodeId>,
    wide: bool,
) -> (h: ChatHeader)
    ensures
        h.title@ == match direct_peer_of(conversation@.kind) {
            Some(key) => display_name_of(contacts@, key),
            None => conversation@.title,
        },
        h.initial@ == title_initial_of(h.title@),
        h.subtitle@ == subtitle_of(
            conversation@.kind,
            conversation@.members,
            opt_key(*our_node_id),
            contacts@,
        ),
        h.members == (conversation@.kind is Group),
        h.button == if wide {
            header_button(*conversation, contacts@, *groups)
        } else {
            HeaderButton::Nothing
        },
        h.menu_adds_friend == (!wide && direct_peer_of(conversation@.kind) is Some && !is_contact(
            contacts@,
            direct_peer_of(conversation@.kind)->0,
        )),
{
    let title = display_title(conversation, contacts);
    let initial = title_initial(title.as_str());
    let group = match &conversation.kind {
        ConversationKind::Direct { .. } => false,
        ConversationKind::Group => true,
    };
    let subtitle: String = if group {
        format_group_member_summary(&group_members_for(conversation, *our_node_id, contacts))
    } else {
        "Direct message".to_owned()
    };
    let peer = conversation.direct_peer();
    let stranger = match &peer {
        Some(peer) => !contacts.is_friend(peer),
        None => false,
    };
    let button = if !wide {
        HeaderButton::Nothing
    } else if peer.is_some() {
        if stranger {
            HeaderButton::AddFriend
        } else {
            HeaderButton::StartCall
        }
    } else if group {
        let joined_already = match &groups.local {
            Some(call) => same_text(call.conversation_id.as_str(), conversation.id.as_str()),
            None => false,
        };
        if joined_already {
            HeaderButton::OpenGroupCall
        } else if groups.group_call_for(conversation.id.as_str()).is_some() {
            HeaderButton::JoinGroupCall
        } else {
            HeaderButton::StartGroupCall
        }
    } else {
        HeaderButton::Nothing
    };
    ChatHeader {
        title,
        initial,
        subtitle,
        members: group,
        button,
        menu_adds_friend: !wide && stranger,
    }
}

/// What the large button says, and what it says when pointed at.
pub fn header_texts(button: HeaderButton, call_goes_on: bool) -> (r: Option<(
    &'static str,
    &'static str,
)>)
    ensures
        match r {
            None => button == HeaderButton::Nothing,
            Some((label, tip)) => match button {
                HeaderButton::Nothing => false,
                HeaderButton::StartCall => label@ == "Start call"@ && tip@
                    == "Start a separate voice call"@,
                HeaderButton::AddFriend => label@ == "Add friend"@ && tip@
                    == "Save this sender using their full node ID"@,
                HeaderButton::OpenGroupCall => label@ == "Open call"@,
                HeaderButton::JoinGroupCall => label@ == "Join call"@ && tip@
                    == "Join the active group call"@,
                HeaderButton::StartGroupCall => label@ == "Start call"@ && tip@
                    == "Ring group members who are currently online"@,
            },
        },
        button == HeaderButton::OpenGroupCall ==> (r->0).1@ == if call_goes_on {
            "Join the active group call"@
        } else {
            "Ring group members who are currently online"@
        },
{
    match button {
        HeaderButton::Nothing => None,
        HeaderButton::StartCall => Some(("Start call", "Start a separate voice call")),
        HeaderButton::AddFriend => {
            Some(("Add friend", "Save this sender using their full node ID"))
        },
        HeaderButton::OpenGroupCall => Some(group_call_button(true, call_goes_on)),
        HeaderButton::JoinGroupCall => Some(group_call_button(false, true)),
        HeaderButton::StartGroupCall => Some(group_call_button(false, false)),
    }
}

/// What the empty field for a message says.
pub fn message_hint(title: &str) -> (s: String)
    ensures
        s@ == "Message "@ + title@,
{
    let mut s: String = "Message ".to_owned();
    s.append(title);
    s
}

/// Whether the Enter key sends what was written: not together with Shift.
pub fn enter_sends(has_focus: bool, enter: bool, shift: bool) -> (r: bool)
    ensures
        r == (has_focus && enter && !shift),
{
    has_focus && enter && !shift
}

// ---------------------------------------------------------------------------
// Names of images
// ---------------------------------------------------------------------------

/// The name of an image that was dropped in.
pub fn dropped_name(name: String) -> (s: String)
    ensures
        s@ == if name@.len() == 0 {
            "dropped-image"@
        } else {
            name@
        },
{
    if name.as_str().unicode_len() == 0 {
        "dropped-image".to_owned()
    } else {
        name
    }
}

/// The name of an image that was pasted in.
pub fn pasted_name(now: i64) -> (s: String)
    ensures
        s@ == "pasted-"@ + signed_decimal(now as int) + ".png"@,
{
    let mut s: String = "pasted-".to_owned();
    push_signed(&mut s, now);
    s.append(".png");
    s
}

/// The name of an image that was read from a file.
pub fn file_image_name(name: Option<String>) -> (s: String)
    ensures
        s@ == match name {
            Some(name) => name@,
            None => "image"@,
        },
{
    match name {
        Some(name) => name,
        None => "image".to_owned(),
    }
}

// ---------------------------------------------------------------------------
// Making a group
// ---------------------------------------------------------------------------

/// The dialog that makes a group.
pub struct GroupEditor {
    pub shown: bool,
    pub name: String,
    pub members: Table<NodeId, ()>,
}

/// What comes of making a group.
#[derive(Debug)]
pub enum GroupCreation {
    Create(String, Vec<NodeId>),
    /// Something is missing, as this says.
    Incomplete(String),
}

impl GroupEditor {
    /// Picks a contact, or no longer.
    pub fn choose_member(&mut self, peer: NodeId, selected: bool)
        requires
            old(self).members.wf(),
        ensures
            final(self).members.wf(),
            final(self).members@ == if selected {
                old(self).members@.insert(peer@, ())
            } else {
                old(self).members@.remove(peer@)
            },
            final(self).name == old(self).name,
            final(self).shown == old(self).shown,
    {
        if selected {
            self.members.insert(peer, ());
        } else {
            self.members.remove(&peer);
        }
    }

    /// Makes the group and closes the dialog, if nothing is missing; else everything stays.
    pub fn create(&mut self) -> (r: GroupCreation)
        requires
            old(self).members.wf(),
        ensures
            final(self).members.wf(),
            ({
                let complete = trimmed(old(self).name@).len() > 0 && old(self).members.entries@.len()
                    > 0;
                match r {
                    GroupCreation::Create(title, peers) => complete && title@ == trimmed(
                        old(self).name@,
                    ) && keys_of(peers@) == table_keys(old(self).members.entries@)
                        && !final(self).shown && final(self).name@.len() == 0
                        && final(self).members@ == Map::<Seq<u8>, ()>::empty(),
                    GroupCreation::Incomplete(text) => !complete && text@ == GROUP_INCOMPLETE@
                        && *final(self) == *old(self),
                }
            }),
    {
        match group_request(self.name.as_str(), &self.members) {
            Some((title, peers)) => {
                self.name = String::new();
                self.members = Table::new();
                self.shown = false;
                GroupCreation::Create(title, peers)
            },
            None => GroupCreation::Incomplete(GROUP_INCOMPLETE.to_owned()),
        }
    }

    /// Closes the dialog where its frame or the user did.
    pub fn leave(&mut self, cancelled: bool, open: bool)
        ensures
            final(self).shown == (old(self).shown && !cancelled && open),
            final(self).name == old(self).name,
            final(self).members == old(self).members,
    {
        if cancelled || !open {
            self.shown = false;
        }
    }
}

// ---------------------------------------------------------------------------
// Making a sender a contact
// ---------------------------------------------------------------------------

/// The dialog that makes a peer a contact.
pub struct FriendDialog {
    pub peer: Option<NodeId>,
    pub name: String,
}

impl FriendDialog {
    /// Opens the dialog for a peer.
    pub fn begin(&mut self, peer: NodeId)
        ensures
            final(self).peer == Some(peer),
            final(self).name@.len() == 0,
    {
        self.peer = Some(peer);
        self.name = String::new();
    }

    /// What the user did: adds the contact under the name given, or closes the dialog. Says
    /// whether the contacts changed.
    pub fn finish(&mut self, contacts: &mut Contacts, add: bool, cancel: bool, open: bool) -> (
        changed: bool)
        ensures
            ({
                let closes = add || cancel || !open;
                &&& changed == (old(self).peer is Some && add && !is_contact(
                    old(contacts)@,
                    old(self).peer->0@,
                ))
                &&& final(contacts)@ == if changed {
                    by_name(
                        old(contacts)@.push(
                            FriendView {
                                name: if trimmed(old(self).name@).len() == 0 {
                                    peer_label(old(self).peer->0@)
                                } else {
                                    trimmed(old(self).name@)
                                },
                                node_id: hex_lower(old(self).peer->0@),
                            },
                        ),
                    )
                } else {
                    old(contacts)@
                }
                &&& final(self).peer == if closes {
                    None
                } else {
                    old(self).peer
                }
                &&& final(self).name@ == if old(self).peer is Some && closes {
                    Seq::empty()
                } else {
                    old(self).name@
                }
            }),
    {
        let peer = match self.peer {
            Some(peer) => peer,
            None => {
                return false;
            },
        };
        let mut changed = false;
        if add {
            let name = candidate_name(self.name.as_str(), &peer);
            changed = contacts.add_friend_record(&peer, name);
        }
        if add || cancel || !open {
            self.peer = None;
            self.name = String::new();
            assert(self.name@ =~= Seq::empty());
        }
        changed
    }
}

// ---------------------------------------------------------------------------
// The controls of calls
// ---------------------------------------------------------------------------

/// Whether we are in a call, so that a screen can be shared and the call be left.
pub fn in_call(desk: &CallDesk, groups: &GroupCalls) -> (r: bool)
    requires
        desk.wf(),
    ensures
        r == (groups.local is Some || some_call(desk@.calls, CallState::Active)),
{
    groups.local.is_some() || desk.has_active_call()
}

/// What pressing the control for sharing does.
#[derive(Clone, Copy, Debug)]
pub enum SharePress {
    /// Stop sharing, with this sound.
    Stop(Sound, Command),
    /// Let a screen or window be picked.
    Pick,
}

/// What pressing the control for sharing does.
pub fn toggle_sharing(sharing_active: bool) -> (r: SharePress)
    ensures
        r == if sharing_active {
            SharePress::Stop(Sound::Button2, stop_sharing_command())
        } else {
            SharePress::Pick
        },
{
    if sharing_active {
        SharePress::Stop(
            Sound::Button2,
            Command::ToggleSharing { enabled: false, target: None, share_system_audio: false },
        )
    } else {
        SharePress::Pick
    }
}

/// What listing the screens and windows came to.
pub struct TargetsListed {
    /// Whether the picker is shown.
    pub shown: bool,
    pub selected: Option<usize>,
    pub card: Option<NotificationSpec>,
}

impl CallDesk {
    /// The screens and windows were listed, or could not be: `primary` says of each whether it is
    /// the main screen.
    pub fn targets_listed(&mut self, primary: Result<Vec<bool>, String>) -> (r: TargetsListed)
        requires
            old(self).wf(),
        ensures
            final(self).wf(),
            r.shown == (primary is Ok),
            match primary {
                Ok(primary) => {
                    &&& final(self)@ == (DeskView { capture_error: None, ..old(self)@ })
                    &&& match r.selected {
                        Some(i) => first_choice(primary@) == Some(i as int),
                        None => first_choice(primary@) is None,
                    }
                    &&& r.card is None
                },
                Err(message) => {
                    &&& final(self)@ == (DeskView {
                        capture_error: Some(message@),
                        ..old(self)@
                    })
                    &&& r.selected is None
                    &&& r.card is Some && is_notice(
                        r.card->0,
                        NotificationKind::Error,
                        "screen-sharing-error"@,
                        "Could not list screens and windows"@,
                        message@,
                    )
                },
            },
    {
        match primary {
            Ok(primary) => {
                self.capture_error = None;
                TargetsListed { shown: true, selected: choose_target(&primary), card: None }
            },
            Err(message) => {
                self.capture_error = Some(message.clone());
                TargetsListed {
                    shown: false,
                    selected: None,
                    card: Some(
                        notice_spec(
                            NotificationKind::Error,
                            "screen-sharing-error".to_owned(),
                            "Could not list screens and windows".to_owned(),
                            message,
                        ),
                    ),
                }
            },
        }
    }
}

/// What can be shared.
#[derive(Clone, Copy, Debug, PartialEq, Eq, Structural)]
pub enum TargetKind {
    Display,
    Window,
}

/// The places of the targets of one kind.
pub open spec fn places_of(kinds: Seq<TargetKind>, kind: TargetKind) -> Seq<int>
    decreases kinds.len(),
{
    if kinds.len() == 0 {
        Seq::empty()
    } else {
        let rest = places_of(kinds.drop_last(), kind);
        if kinds.last() == kind {
            rest.push(kinds.len() - 1)
        } else {
            rest
        }
    }
}

/// The places of the targets of one kind, which make up a column of the picker.
pub fn column_targets(kinds: &Vec<TargetKind>, kind: TargetKind) -> (places: Vec<usize>)
    ensures
        places@.len() == places_of(kinds@, kind).len(),
        forall|i: int| 0 <= i < places@.len() ==> #[trigger] places@[i] == places_of(kinds@, kind)[i],
{
    let ghost all = kinds@;
    let mut places: Vec<usize> = Vec::new();
    let mut i: usize = 0;
    assert(all.take(0) =~= Seq::empty());
    while i < kinds.len()
        invariant
            0 <= i <= kinds@.len(),
            all == kinds@,
            places@.len() == places_of(all.take(i as int), kind).len(),
            forall|j: int|
                0 <= j < places@.len() ==> #[trigger] places@[j] == places_of(
                    all.take(i as int),
                    kind,
                )[j],
        decreases kinds@.len() - i,
    {
        assert(all.take(i as int + 1).drop_last() =~= all.take(i as int));
        if kinds[i] == kind {
            places.push(i);
        }
        i += 1;
    }
    assert(all.take(all.len() as int) =~= all);
    places
}

/// The title of a column of the picker, and what it says when it is empty.
pub fn column_texts(kind: TargetKind) -> (r: (&'static str, &'static str))
    ensures
        r.0@ == if kind == TargetKind::Display {
            "Screens"@
        } else {
            "Windows"@
        },
        r.1@ == if kind == TargetKind::Display {
            "No screens available"@
        } else {
            "No windows available"@
        },
{
    match kind {
        TargetKind::Display => ("Screens", "No screens available"),
        TargetKind::Window => ("Windows", "No windows available"),
    }
}

/// The title of a target as far as there is room for characters, but at least twelve and at most
/// 48 of them.
pub fn target_title(title: &str, room: usize) -> (s: String)
    ensures
        s@ == ellipsized(
            title@,
            if room < 12 {
                12
            } else if room > 48 {
                48
            } else {
                room as int
            },
        ),
{
    let chars: usize = if room < 12 {
        12
    } else if room > 48 {
        48
    } else {
        room
    };
    ellipsize(title, chars)
}

/// The rows of the bar of participants: where each begins and ends. We come last.
pub fn participant_rows(calls: usize, columns: usize) -> (rows: Vec<(usize, usize)>)
    requires
        columns > 0,
        calls < usize::MAX,
    ensures
        forall|i: int|
            0 <= i < rows@.len() ==> (#[trigger] rows@[i]).0 == i * columns && rows@[i].1 == if (i
                + 1) * columns <= calls + 1 {
                (i + 1) * columns
            } else {
                calls + 1
            },
        (rows@.len() - 1) * columns < calls + 1 <= rows@.len() * columns,
{
    let items: usize = calls + 1;
    let mut rows: Vec<(usize, usize)> = Vec::new();
    let mut start: usize = 0;
    while start < items
        invariant
            columns > 0,
            items == calls + 1,
            start == if rows@.len() * columns <= items {
                rows@.len() * columns
            } else {
                items as int
            },
            rows@.len() > 0 ==> (rows@.len() - 1) * columns < items,
            rows@.len() == 0 ==> start == 0,
            forall|i: int|
                0 <= i < rows@.len() ==> (#[trigger] rows@[i]).0 == i * columns && rows@[i].1 == if (
                i + 1) * columns <= items {
                    (i + 1) * columns
                } else {
                    items as int
                },
        decreases items - start,
    {
        let ghost n = rows@.len() as int;
        proof {
            assert((n + 1) * columns == n * columns + columns) by (nonlinear_arith);
        }
        let end: usize = if columns < items - start {
            start + columns
        } else {
            items
        };
        rows.push((start, end));
        start = end;
    }
    proof {
        let n = rows@.len() as int;
        assert(n * columns >= items) by {
            if n == 0 {
                assert(start == 0);
            }
        }
        assert(0 * columns == 0) by (nonlinear_arith);
    }
    rows
}

/// What our own chip says of the microphone.
pub fn microphone_tip(muted: bool) -> (s: &'static str)
    ensures
        s@ == if muted {
            "Microphone muted"@
        } else {
            "Your microphone level"@
        },
{
    if muted {
        "Microphone muted"
    } else {
        "Your microphone level"
    }
}

/// The large button offers what can be done: to call a contact, to make a stranger one, and in a
/// group to open the call that we are in, to join one that goes on, or to start one.
pub proof fn law_header_offers_what_can_be_done(
    conversation: ChatConversation,
    friends: Seq<FriendView>,
    groups: GroupCalls,
    peer: Seq<u8>,
)
    ensures
        ({
            let button = header_button(conversation, friends, groups);
            let ours = groups.local is Some && groups.local->0.conversation_id@
                == conversation.id@;
            let goes_on = exists|i: int|
                0 <= i < groups.calls().len() && (#[trigger] groups.calls()[i]).conversation_id
                    == conversation.id@ && groups.calls()[i].ended_at_ms is None;
            &&& direct_peer_of(conversation@.kind) == Some(peer) && is_contact(friends, peer)
                ==> button == HeaderButton::StartCall
            &&& direct_peer_of(conversation@.kind) == Some(peer) && !is_contact(friends, peer)
                ==> button == HeaderButton::AddFriend
            &&& conversation@.kind is Group && ours ==> button == HeaderButton::OpenGroupCall
            &&& conversation@.kind is Group && !ours && goes_on ==> button
                == HeaderButton::JoinGroupCall
            &&& conversation@.kind is Group && !ours && !goes_on ==> button
                == HeaderButton::StartGroupCall
        }),
{
    law_shown_call_goes_on(groups.calls(), conversation@.id);
}

/// Each target stands in the column of its kind, in the order in which they are listed.
pub proof fn law_targets_stand_in_their_column(kinds: Seq<TargetKind>, kind: TargetKind, place: int)
    ensures
        places_of(kinds, kind).contains(place) <==> 0 <= place < kinds.len() && kinds[place]
            == kind,
        forall|i: int, j: int|
            0 <= i < j < places_of(kinds, kind).len() ==> #[trigger] places_of(kinds, kind)[i]
                < #[trigger] places_of(kinds, kind)[j],
        forall|i: int|
            0 <= i < places_of(kinds, kind).len() ==> #[trigger] places_of(kinds, kind)[i]
                < kinds.len(),
    decreases kinds.len(),
{
    if kinds.len() > 0 {
        let shorter = kinds.drop_last();
        let rest = places_of(shorter, kind);
        law_targets_stand_in_their_column(shorter, kind, place);
        lemma_held_after_push(rest, kinds.len() - 1, place);
        if 0 <= place < shorter.len() {
            assert(shorter[place] == kinds[place]);
        }
    }
}

} // verus!
