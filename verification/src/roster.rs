//! The members of groups and the peers that the service keeps in touch with.
use vstd::prelude::*;
use crate::contacts::{
    label_peer, lower_ascii, name_of, peer_label, to_lower_ascii, Contacts, FriendView,
};
use crate::conversation::{direct_peer_of, ChatConversation, ConversationView};
use crate::node::{parsed_key, short_form, NodeId};
use crate::sort::{arranged, law_arranging_keeps_everything, sort_order, stable_order};
use crate::table::Table;
use crate::text::{
    ellipsize, ellipsized, join, joined, lemma_held_after_push, texts, trim, trimmed,
};

verus! {

/// How a member of a group is known.
#[derive(Debug, Clone, Copy, PartialEq, Eq, Structural)]
pub enum GroupMemberKind {
    You,
    Friend,
    Unknown,
}

/// A member of a group as it is shown.
#[derive(Debug)]
pub struct GroupMemberLabel {
    pub node_id: Option<NodeId>,
    pub kind: GroupMemberKind,
    pub text: String,
}

/// The contents of a `GroupMemberLabel`.
pub struct LabelView {
    pub key: Option<Seq<u8>>,
    pub kind: GroupMemberKind,
    pub text: Seq<char>,
}

/// The key of an optional peer.
pub open spec fn opt_key(node: Option<NodeId>) -> Option<Seq<u8>> {
    match node {
        Some(node) => Some(node@),
        None => None,
    }
}

impl View for GroupMemberLabel {
    type V = LabelView;

    open spec fn view(&self) -> LabelView {
        LabelView { key: opt_key(self.node_id), kind: self.kind, text: self.text@ }
    }
}

/// The contents of a list of labels.
pub open spec fn label_views(v: Seq<GroupMemberLabel>) -> Seq<LabelView> {
    Seq::new(v.len(), |i: int| v[i]@)
}

/// The label of a member: `You`, a contact's name, a short key, or the beginning of what is no
/// key. A blank entry has none.
pub open spec fn label_of(
    member: Seq<char>,
    ours: Option<Seq<u8>>,
    names: Map<Seq<u8>, Seq<char>>,
) -> Option<LabelView> {
    let raw = trimmed(member);
    if raw.len() == 0 {
        None
    } else {
        match parsed_key(raw) {
            Err(_) => Some(
                LabelView {
                    key: None,
                    kind: GroupMemberKind::Unknown,
                    text: ellipsized(raw, 16),
                },
            ),
            Ok(key) => if ours == Some(key) {
                Some(LabelView { key: Some(key), kind: GroupMemberKind::You, text: "You"@ })
            } else if names.contains_key(key) && trimmed(names[key]).len() > 0 {
                Some(
                    LabelView {
                        key: Some(key),
                        kind: GroupMemberKind::Friend,
                        text: trimmed(names[key]),
                    },
                )
            } else {
                Some(
                    LabelView {
                        key: Some(key),
                        kind: GroupMemberKind::Unknown,
                        text: peer_label(key),
                    },
                )
            },
        }
    }
}

/// The labels of one kind, in the order of the members.
pub open spec fn labels_of(
    members: Seq<Seq<char>>,
    ours: Option<Seq<u8>>,
    names: Map<Seq<u8>, Seq<char>>,
    kind: GroupMemberKind,
) -> Seq<LabelView>
    decreases members.len(),
{
    if members.len() == 0 {
        Seq::empty()
    } else {
        let rest = labels_of(members.drop_last(), ours, names, kind);
        match label_of(members.last(), ours, names) {
            Some(label) => if label.kind == kind {
                rest.push(label)
            } else {
                rest
            },
            None => rest,
        }
    }
}

/// The texts of labels, with their ASCII capitals made small.
pub open spec fn label_keys(labels: Seq<LabelView>) -> Seq<Seq<char>> {
    Seq::new(labels.len(), |i: int| lower_ascii(labels[i].text))
}

/// Labels from A to Z, whatever their case.
pub open spec fn alphabetical(labels: Seq<LabelView>) -> Seq<LabelView> {
    arranged(labels, label_keys(labels))
}

/// The labels of a group: ourselves once, then contacts from A to Z, then the others from A to Z.
pub open spec fn group_labels(
    members: Seq<Seq<char>>,
    ours: Option<Seq<u8>>,
    names: Map<Seq<u8>, Seq<char>>,
) -> Seq<LabelView> {
    let you = labels_of(members, ours, names, GroupMemberKind::You);
    (if you.len() > 0 {
        seq![you.last()]
    } else {
        Seq::empty()
    }) + alphabetical(labels_of(members, ours, names, GroupMemberKind::Friend)) + alphabetical(
        labels_of(members, ours, names, GroupMemberKind::Unknown),
    )
}

/// The names in a table of names.
pub open spec fn name_map(names: Map<Seq<u8>, String>) -> Map<Seq<u8>, Seq<char>> {
    names.map_values(|s: String| s@)
}

fn label_member(
    member: &str,
    our_node_id: &Option<NodeId>,
    names: &Table<NodeId, String>,
) -> (r: Option<GroupMemberLabel>)
    requires
        names.wf(),
    ensures
        match r {
            Some(label) => label_of(member@, opt_key(*our_node_id), name_map(names@)) == Some(
                label@,
            ),
            None => label_of(member@, opt_key(*our_node_id), name_map(names@)) is None,
        },
{
    let raw = trim(member);
    if raw.as_str().unicode_len() == 0 {
        return None;
    }
    match NodeId::parse(raw.as_str()) {
        Err(_) => Some(
            GroupMemberLabel {
                node_id: None,
                kind: GroupMemberKind::Unknown,
                text: ellipsize(raw.as_str(), 16),
            },
        ),
        Ok(node) => {
            let us = match our_node_id {
                Some(ours) => ours.same(&node),
                None => false,
            };
            if us {
                return Some(
                    GroupMemberLabel {
                        node_id: Some(node),
                        kind: GroupMemberKind::You,
                        text: "You".to_owned(),
                    },
                );
            }
            match names.get(&node) {
                Some(name) => {
                    let name = trim(name.as_str());
                    if name.as_str().unicode_len() > 0 {
                        return Some(
                            GroupMemberLabel {
                                node_id: Some(node),
                                kind: GroupMemberKind::Friend,
                                text: name,
                            },
                        );
                    }
                },
                None => {},
            }
            Some(
                GroupMemberLabel {
                    node_id: Some(node),
                    kind: GroupMemberKind::Unknown,
                    text: label_peer(&node),
                },
            )
        },
    }
}

fn copy_label(label: &GroupMemberLabel) -> (r: GroupMemberLabel)
    ensures
        r@ == label@,
{
    GroupMemberLabel { node_id: label.node_id, kind: label.kind, text: label.text.clone() }
}

fn sort_labels(labels: &Vec<GroupMemberLabel>) -> (sorted: Vec<GroupMemberLabel>)
    ensures
        label_views(sorted@) == alphabetical(label_views(labels@)),
{
    let ghost before = label_views(labels@);
    let mut keys: Vec<String> = Vec::new();
    let mut i: usize = 0;
    while i < labels.len()
        invariant
            0 <= i <= labels@.len(),
            before == label_views(labels@),
            keys@.len() == i,
            forall|j: int| 0 <= j < i ==> (#[trigger] keys@[j])@ == lower_ascii(before[j].text),
        decreases labels@.len() - i,
    {
        keys.push(to_lower_ascii(labels[i].text.as_str()));
        i += 1;
    }
    assert(texts(keys@) =~= label_keys(before));
    let order = sort_order(&keys);
    let mut sorted: Vec<GroupMemberLabel> = Vec::new();
    let mut k: usize = 0;
    while k < order.len()
        invariant
            0 <= k <= order@.len(),
            before == label_views(labels@),
            order@.len() == labels@.len(),
            forall|i: int| 0 <= i < order@.len() ==> order@[i] < labels@.len(),
            sorted@.len() == k,
            forall|j: int| 0 <= j < k ==> (#[trigger] sorted@[j])@ == before[order@[j] as int],
        decreases order@.len() - k,
    {
        sorted.push(copy_label(&labels[order[k]]));
        k += 1;
    }
    proof {
        let o = order@.map_values(|k: usize| k as int);
        assert(o == stable_order(label_keys(before)));
        assert forall|j: int| 0 <= j < before.len() implies label_views(sorted@)[j] == alphabetical(
            before,
        )[j] by {
            assert(o[j] == order@[j] as int);
        }
        assert(label_views(sorted@) =~= alphabetical(before));
    }
    sorted
}

/// Resolves the members of a group to what is shown of them. `names` holds the names that peers
/// go by.
pub fn group_member_labels(
    members: &Vec<String>,
    our_node_id: Option<NodeId>,
    names: &Table<NodeId, String>,
) -> (labels: Vec<GroupMemberLabel>)
    requires
        names.wf(),
    ensures
        label_views(labels@) == group_labels(
            texts(members@),
            opt_key(our_node_id),
            name_map(names@),
        ),
{
    let ghost all = texts(members@);
    let ghost ours = opt_key(our_node_id);
    let ghost map = name_map(names@);
    let mut you: Vec<GroupMemberLabel> = Vec::new();
    let mut friends: Vec<GroupMemberLabel> = Vec::new();
    let mut unknown: Vec<GroupMemberLabel> = Vec::new();
    let mut i: usize = 0;
    proof {
        assert(all.take(0) =~= Seq::empty());
        assert(label_views(you@) =~= Seq::empty());
        assert(label_views(friends@) =~= Seq::empty());
        assert(label_views(unknown@) =~= Seq::empty());
    }
    while i < members.len()
        invariant
            0 <= i <= members@.len(),
            names.wf(),
            all == texts(members@),
            ours == opt_key(our_node_id),
            map == name_map(names@),
            label_views(you@) == labels_of(all.take(i as int), ours, map, GroupMemberKind::You),
            label_views(friends@) == labels_of(
                all.take(i as int),
                ours,
                map,
                GroupMemberKind::Friend,
            ),
            label_views(unknown@) == labels_of(
                all.take(i as int),
                ours,
                map,
                GroupMemberKind::Unknown,
            ),
        decreases members@.len() - i,
    {
        let ghost y = you@;
        let ghost f = friends@;
        let ghost u = unknown@;
        assert(all.take(i as int + 1).drop_last() =~= all.take(i as int));
        match label_member(members[i].as_str(), &our_node_id, names) {
            Some(label) => {
                let ghost view = label@;
                match label.kind {
                    GroupMemberKind::You => {
                        you.push(label);
                        assert(label_views(you@) =~= label_views(y).push(view));
                    },
                    GroupMemberKind::Friend => {
                        friends.push(label);
                        assert(label_views(friends@) =~= label_views(f).push(view));
                    },
                    GroupMemberKind::Unknown => {
                        unknown.push(label);
                        assert(label_views(unknown@) =~= label_views(u).push(view));
                    },
                }
            },
            None => {},
        }
        i += 1;
    }
    assert(all.take(members@.len() as int) =~= all);
    let mut labels: Vec<GroupMemberLabel> = Vec::new();
    let ghost views = label_views(you@);
    if you.len() > 0 {
        labels.push(copy_label(&you[you.len() - 1]));
        assert(label_views(labels@) =~= seq![views.last()]);
    } else {
        assert(label_views(labels@) =~= Seq::empty());
    }
    let ghost first = labels@;
    let mut sorted_friends = sort_labels(&friends);
    let mut sorted_unknown = sort_labels(&unknown);
    let ghost second = sorted_friends@;
    let ghost third = sorted_unknown@;
    labels.append(&mut sorted_friends);
    labels.append(&mut sorted_unknown);
    assert(label_views(labels@) =~= label_views(first) + label_views(second) + label_views(third));
    labels
}

/// The texts of labels.
pub open spec fn label_texts(labels: Seq<LabelView>) -> Seq<Seq<char>> {
    Seq::new(labels.len(), |i: int| labels[i].text)
}

/// The members of a group in one line.
pub fn format_group_member_summary(members: &Vec<GroupMemberLabel>) -> (s: String)
    ensures
        s@ == if members@.len() == 0 {
            "No members"@
        } else {
            joined(label_texts(label_views(members@)), ", "@)
        },
{
    if members.len() == 0 {
        return "No members".to_owned();
    }
    let mut parts: Vec<String> = Vec::new();
    let mut i: usize = 0;
    while i < members.len()
        invariant
            0 <= i <= members@.len(),
            parts@.len() == i,
            forall|j: int| 0 <= j < i ==> (#[trigger] parts@[j])@ == members@[j].text@,
        decreases members@.len() - i,
    {
        parts.push(members[i].text.clone());
        i += 1;
    }
    assert(texts(parts@) =~= label_texts(label_views(members@)));
    join(&parts, ", ")
}

/// The names of the members of a group that are contacts.
pub open spec fn member_names(members: Seq<Seq<char>>, friends: Seq<FriendView>) -> Map<
    Seq<u8>,
    Seq<char>,
> {
    Map::new(
        |key: Seq<u8>|
            name_of(friends, key) is Some && exists|i: int|
                0 <= i < members.len() && parsed_key(trimmed(#[trigger] members[i])) == Ok::<
                    Seq<u8>,
                    Seq<char>,
                >(key),
        |key: Seq<u8>| name_of(friends, key)->0,
    )
}

/// Resolves the members of a conversation to what is shown of them.
pub fn group_members_for(
    conversation: &ChatConversation,
    our_node_id: Option<NodeId>,
    contacts: &Contacts,
) -> (labels: Vec<GroupMemberLabel>)
    ensures
        label_views(labels@) == group_labels(
            conversation@.members,
            opt_key(our_node_id),
            member_names(conversation@.members, contacts@),
        ),
{
    let ghost members = conversation@.members;
    let ghost friends = contacts@;
    let mut names: Table<NodeId, String> = Table::new();
    let mut i: usize = 0;
    assert(name_map(names@) =~= member_names(members.take(0), friends));
    while i < conversation.members.len()
        invariant
            0 <= i <= conversation.members@.len(),
            members == texts(conversation.members@),
            friends == contacts@,
            names.wf(),
            name_map(names@) == member_names(members.take(i as int), friends),
        decreases conversation.members@.len() - i,
    {
        let ghost before = names@;
        let ghost now = members.take(i as int);
        let ghost next = members.take(i as int + 1);
        assert(next =~= now.push(members[i as int]));
        assert(next.drop_last() =~= now);
        match NodeId::parse(trim(conversation.members[i].as_str()).as_str()) {
            Ok(node) => match contacts.friend_name(&node) {
                Some(name) => {
                    names.insert(node, name);
                    proof {
                        assert(next[i as int] == members[i as int]);
                        assert forall|key: Seq<u8>|
                            member_names(next, friends).contains_key(key) implies (
                        member_names(now, friends).contains_key(key) || key == node@) by {
                            let k = choose|k: int|
                                0 <= k < next.len() && parsed_key(trimmed(#[trigger] next[k]))
                                    == Ok::<Seq<u8>, Seq<char>>(key);
                            if k < i {
                                assert(now[k] == next[k]);
                            }
                        }
                        assert forall|key: Seq<u8>|
                            member_names(now, friends).contains_key(key) implies member_names(
                            next,
                            friends,
                        ).contains_key(key) by {
                            let k = choose|k: int|
                                0 <= k < now.len() && parsed_key(trimmed(#[trigger] now[k]))
                                    == Ok::<Seq<u8>, Seq<char>>(key);
                            assert(next[k] == now[k]);
                        }
                        assert(parsed_key(trimmed(next[i as int])) == Ok::<Seq<u8>, Seq<char>>(
                            node@,
                        ));
                        assert(member_names(next, friends).contains_key(node@));
                        assert(names@ == before.insert(node@, name));
                        assert forall|key: Seq<u8>|
                            name_map(names@).contains_key(key) <==> member_names(
                                next,
                                friends,
                            ).contains_key(key) by {
                            assert(name_map(before).contains_key(key) <==> before.contains_key(
                                key,
                            ));
                        }
                        assert forall|key: Seq<u8>|
                            name_map(names@).contains_key(key) implies name_map(names@)[key]
                            == member_names(next, friends)[key] by {
                            if key != node@ {
                                assert(name_map(before).contains_key(key));
                                assert(name_map(before)[key] == member_names(now, friends)[key]);
                            }
                        }
                        assert(name_map(names@) =~= member_names(next, friends));
                    }
                },
                None => {
                    proof {
                        lemma_same_names(now, next, friends);
                    }
                },
            },
            Err(_) => {
                proof {
                    lemma_same_names(now, next, friends);
                }
            },
        }
        i += 1;
    }
    assert(members.take(members.len() as int) =~= members);
    group_member_labels(&conversation.members, our_node_id, &names)
}

proof fn lemma_same_names(now: Seq<Seq<char>>, next: Seq<Seq<char>>, friends: Seq<FriendView>)
    requires
        next.len() == now.len() + 1,
        now == next.drop_last(),
        match parsed_key(trimmed(next.last())) {
            Ok(key) => name_of(friends, key) is None,
            Err(_) => true,
        },
    ensures
        member_names(now, friends) == member_names(next, friends),
{
    assert forall|key: Seq<u8>|
        member_names(next, friends).contains_key(key) implies member_names(
        now,
        friends,
    ).contains_key(key) by {
        let k = choose|k: int|
            0 <= k < next.len() && parsed_key(trimmed(#[trigger] next[k])) == Ok::<
                Seq<u8>,
                Seq<char>,
            >(key);
        assert(k < now.len());
        assert(now[k] == next[k]);
    }
    assert forall|key: Seq<u8>|
        member_names(now, friends).contains_key(key) implies member_names(
        next,
        friends,
    ).contains_key(key) by {
        let k = choose|k: int|
            0 <= k < now.len() && parsed_key(trimmed(#[trigger] now[k])) == Ok::<
                Seq<u8>,
                Seq<char>,
            >(key);
        assert(next[k] == now[k]);
    }
    assert(member_names(now, friends) =~= member_names(next, friends));
}

// ---------------------------------------------------------------------------
// Direct conversations with strangers
// ---------------------------------------------------------------------------

/// The conversations in a table, in the order of their ids.
pub open spec fn conversation_list(entries: Seq<(String, ChatConversation)>) -> Seq<
    ConversationView,
> {
    Seq::new(entries.len(), |i: int| entries[i].1@)
}

/// The direct conversations whose peer is not among the known ones.
pub open spec fn strangers_in(
    conversations: Seq<ConversationView>,
    known: Set<Seq<u8>>,
) -> Seq<(Seq<char>, Seq<u8>)>
    decreases conversations.len(),
{
    if conversations.len() == 0 {
        Seq::empty()
    } else {
        let rest = strangers_in(conversations.drop_last(), known);
        let last = conversations.last();
        match direct_peer_of(last.kind) {
            Some(peer) => if known.contains(peer) {
                rest
            } else {
                rest.push((last.id, peer))
            },
            None => rest,
        }
    }
}

/// The short keys of strangers.
pub open spec fn stranger_keys(list: Seq<(Seq<char>, Seq<u8>)>) -> Seq<Seq<char>> {
    Seq::new(list.len(), |i: int| short_form(list[i].1))
}

/// The contents of a list of conversations with their peers.
pub open spec fn stranger_views(v: Seq<(String, NodeId)>) -> Seq<(Seq<char>, Seq<u8>)> {
    Seq::new(v.len(), |i: int| (v[i].0@, v[i].1@))
}

/// The direct conversations with peers that are no contacts, ordered by short key: they stay in
/// sight until the peer becomes one.
pub fn unknown_direct_conversations(
    conversations: &Table<String, ChatConversation>,
    known_peers: &Table<NodeId, ()>,
) -> (r: Vec<(String, NodeId)>)
    requires
        conversations.wf(),
        known_peers.wf(),
    ensures
        ({
            let list = strangers_in(conversation_list(conversations.entries@), known_peers@.dom());
            stranger_views(r@) == arranged(list, stranger_keys(list))
        }),
{
    let ghost all = conversation_list(conversations.entries@);
    let ghost known = known_peers@.dom();
    let mut found: Vec<(String, NodeId)> = Vec::new();
    let mut keys: Vec<String> = Vec::new();
    let mut i: usize = 0;
    proof {
        assert(all.take(0) =~= Seq::empty());
        assert(stranger_views(found@) =~= Seq::empty());
        assert(texts(keys@) =~= stranger_keys(stranger_views(found@)));
    }
    while i < conversations.entries.len()
        invariant
            0 <= i <= conversations.entries@.len(),
            known_peers.wf(),
            all == conversation_list(conversations.entries@),
            known == known_peers@.dom(),
            stranger_views(found@) == strangers_in(all.take(i as int), known),
            texts(keys@) == stranger_keys(stranger_views(found@)),
        decreases conversations.entries@.len() - i,
    {
        let ghost before = stranger_views(found@);
        let ghost before_keys = texts(keys@);
        assert(all.take(i as int + 1).drop_last() =~= all.take(i as int));
        let conversation = &conversations.entries[i].1;
        match conversation.direct_peer() {
            Some(peer) => {
                if !known_peers.has(&peer) {
                    found.push((conversation.id.clone(), peer));
                    keys.push(peer.fmt_short());
                    proof {
                        assert(stranger_views(found@) =~= before.push(
                            (conversation@.id, peer@),
                        ));
                        assert(texts(keys@) =~= before_keys.push(short_form(peer@)));
                        assert(texts(keys@) =~= stranger_keys(stranger_views(found@)));
                    }
                }
            },
            None => {},
        }
        i += 1;
    }
    assert(all.take(all.len() as int) =~= all);
    let ghost list = stranger_views(found@);
    let order = sort_order(&keys);
    let mut r: Vec<(String, NodeId)> = Vec::new();
    let mut k: usize = 0;
    assert(order@.len() == found@.len()) by {
        assert(texts(keys@).len() == list.len());
    }
    while k < order.len()
        invariant
            0 <= k <= order@.len(),
            list == stranger_views(found@),
            order@.len() == found@.len(),
            forall|i: int| 0 <= i < order@.len() ==> order@[i] < found@.len(),
            r@.len() == k,
            forall|j: int|
                0 <= j < k ==> ((#[trigger] r@[j]).0@, r@[j].1@) == list[order@[j] as int],
        decreases order@.len() - k,
    {
        let at: usize = order[k];
        r.push((found[at].0.clone(), found[at].1));
        k += 1;
    }
    proof {
        let o = order@.map_values(|k: usize| k as int);
        assert(o == stable_order(stranger_keys(list)));
        assert forall|j: int| 0 <= j < list.len() implies stranger_views(r@)[j] == arranged(
            list,
            stranger_keys(list),
        )[j] by {
            assert(o[j] == order@[j] as int);
        }
        assert(stranger_views(r@) =~= arranged(list, stranger_keys(list)));
    }
    r
}

// ---------------------------------------------------------------------------
// Peers to keep in touch with
// ---------------------------------------------------------------------------

/// Whether a contact's key is this one.
pub open spec fn contact_with_key(friends: Seq<FriendView>, key: Seq<u8>) -> bool {
    exists|i: int|
        0 <= i < friends.len() && parsed_key(trimmed((#[trigger] friends[i]).node_id)) == Ok::<
            Seq<u8>,
            Seq<char>,
        >(key)
}

/// Whether a list of members names this key.
pub open spec fn names_key(members: Seq<Seq<char>>, key: Seq<u8>) -> bool {
    exists|i: int|
        0 <= i < members.len() && parsed_key(#[trigger] members[i]) == Ok::<Seq<u8>, Seq<char>>(
            key,
        )
}

/// Whether a member of one of the conversations has this key.
pub open spec fn member_with_key(conversations: Seq<ConversationView>, key: Seq<u8>) -> bool {
    exists|i: int|
        0 <= i < conversations.len() && names_key((#[trigger] conversations[i]).members, key)
}

impl Contacts {
    /// The keys of the contacts.
    pub fn keys(&self) -> (peers: Table<NodeId, ()>)
        ensures
            peers.wf(),
            forall|key: Seq<u8>| #[trigger]
                peers@.contains_key(key) <==> contact_with_key(self@, key),
    {
        let ghost friends = self@;
        let mut peers: Table<NodeId, ()> = Table::new();
        let mut i: usize = 0;
        while i < self.friends.len()
            invariant
                0 <= i <= self.friends@.len(),
                friends == self@,
                peers.wf(),
                forall|key: Seq<u8>| #[trigger]
                    peers@.contains_key(key) <==> contact_with_key(friends.take(i as int), key),
            decreases self.friends@.len() - i,
        {
            let ghost before = peers@;
            let ghost now = friends.take(i as int);
            let ghost next = friends.take(i as int + 1);
            match NodeId::parse(trim(self.friends[i].node_id.as_str()).as_str()) {
                Ok(node) => {
                    peers.insert(node, ());
                },
                Err(_) => {},
            }
            proof {
                assert(next[i as int] == self.friends@[i as int]@);
                assert forall|key: Seq<u8>| #[trigger]
                    peers@.contains_key(key) <==> contact_with_key(next, key) by {
                    if contact_with_key(next, key) {
                        let k = choose|k: int|
                            0 <= k < next.len() && parsed_key(trimmed((#[trigger] next[k]).node_id))
                                == Ok::<Seq<u8>, Seq<char>>(key);
                        if k < i {
                            assert(now[k] == next[k]);
                            assert(contact_with_key(now, key));
                            assert(before.contains_key(key));
                        }
                    }
                    if before.contains_key(key) {
                        let k = choose|k: int|
                            0 <= k < now.len() && parsed_key(trimmed((#[trigger] now[k]).node_id))
                                == Ok::<Seq<u8>, Seq<char>>(key);
                        assert(next[k] == now[k]);
                    }
                }
            }
            i += 1;
        }
        assert(friends.take(friends.len() as int) =~= friends);
        peers
    }
}

/// The peers that the service keeps in touch with: the contacts, and the members of all
/// conversations but ourselves.
pub fn friend_node_ids(
    contacts: &Contacts,
    conversations: &Table<String, ChatConversation>,
    our_node_id: Option<NodeId>,
) -> (peers: Table<NodeId, ()>)
    ensures
        peers.wf(),
        forall|key: Seq<u8>| #[trigger]
            peers@.contains_key(key) <==> contact_with_key(contacts@, key) || (member_with_key(
                conversation_list(conversations.entries@),
                key,
            ) && opt_key(our_node_id) != Some(key)),
{
    let ghost friends = contacts@;
    let ghost all = conversation_list(conversations.entries@);
    let ghost ours = opt_key(our_node_id);
    let mut peers: Table<NodeId, ()> = contacts.keys();
    let mut c: usize = 0;
    while c < conversations.entries.len()
        invariant
            0 <= c <= conversations.entries@.len(),
            all == conversation_list(conversations.entries@),
            ours == opt_key(our_node_id),
            peers.wf(),
            forall|key: Seq<u8>| #[trigger]
                peers@.contains_key(key) <==> contact_with_key(friends, key) || (member_with_key(
                    all.take(c as int),
                    key,
                ) && ours != Some(key)),
        decreases conversations.entries@.len() - c,
    {
        let ghost before = peers@;
        let ghost now = all.take(c as int);
        let ghost next = all.take(c as int + 1);
        let members = &conversations.entries[c].1.members;
        let ghost list = texts(members@);
        let mut m: usize = 0;
        while m < members.len()
            invariant
                0 <= m <= members@.len(),
                ours == opt_key(our_node_id),
                list == texts(members@),
                peers.wf(),
                forall|key: Seq<u8>| #[trigger]
                    peers@.contains_key(key) <==> before.contains_key(key) || (names_key(
                        list.take(m as int),
                        key,
                    ) && ours != Some(key)),
            decreases members@.len() - m,
        {
            let ghost inner = peers@;
            let ghost short = list.take(m as int);
            let ghost long = list.take(m as int + 1);
            match NodeId::parse(members[m].as_str()) {
                Ok(node) => {
                    let us = match &our_node_id {
                        Some(id) => id.same(&node),
                        None => false,
                    };
                    if !us {
                        peers.insert(node, ());
                    }
                },
                Err(_) => {},
            }
            proof {
                assert(long[m as int] == list[m as int]);
                assert forall|key: Seq<u8>| #[trigger]
                    peers@.contains_key(key) <==> before.contains_key(key) || (names_key(
                        long,
                        key,
                    ) && ours != Some(key)) by {
                    if names_key(long, key) {
                        let k = choose|k: int|
                            0 <= k < long.len() && parsed_key(#[trigger] long[k]) == Ok::<
                                Seq<u8>,
                                Seq<char>,
                            >(key);
                        if k < m {
                            assert(short[k] == long[k]);
                            assert(names_key(short, key));
                        }
                        if ours != Some(key) {
                            assert(peers@.contains_key(key)) by {
                                if k < m {
                                    assert(inner.contains_key(key));
                                }
                            }
                        }
                    }
                    if inner.contains_key(key) && !before.contains_key(key) {
                        let k = choose|k: int|
                            0 <= k < short.len() && parsed_key(#[trigger] short[k]) == Ok::<
                                Seq<u8>,
                                Seq<char>,
                            >(key);
                        assert(long[k] == short[k]);
                    }
                }
            }
            m += 1;
        }
        proof {
            assert(list.take(list.len() as int) =~= list);
            assert(next[c as int].members == list);
            assert forall|key: Seq<u8>|
                member_with_key(next, key) <==> member_with_key(now, key) || names_key(
                    list,
                    key,
                ) by {
                if member_with_key(next, key) {
                    let k = choose|k: int|
                        0 <= k < next.len() && names_key((#[trigger] next[k]).members, key);
                    if k < c {
                        assert(now[k] == next[k]);
                    }
                }
                if member_with_key(now, key) {
                    let k = choose|k: int|
                        0 <= k < now.len() && names_key((#[trigger] now[k]).members, key);
                    assert(next[k] == now[k]);
                }
            }
        }
        c += 1;
    }
    assert(all.take(all.len() as int) =~= all);
    peers
}

/// A conversation with a peer that is no contact is listed, and no other one is.
pub proof fn law_strangers_stay_in_sight(
    conversations: Seq<ConversationView>,
    known: Set<Seq<u8>>,
    id: Seq<char>,
    peer: Seq<u8>,
)
    ensures
        ({
            let list = strangers_in(conversations, known);
            arranged(list, stranger_keys(list)).contains((id, peer)) <==> !known.contains(peer)
                && exists|i: int|
                0 <= i < conversations.len() && (#[trigger] conversations[i]).id == id
                    && direct_peer_of(conversations[i].kind) == Some(peer)
        }),
{
    let list = strangers_in(conversations, known);
    lemma_strangers(conversations, known, id, peer);
    law_arranging_keeps_everything(list, stranger_keys(list), (id, peer));
}

proof fn lemma_strangers(
    conversations: Seq<ConversationView>,
    known: Set<Seq<u8>>,
    id: Seq<char>,
    peer: Seq<u8>,
)
    ensures
        strangers_in(conversations, known).contains((id, peer)) <==> !known.contains(peer)
            && exists|i: int|
            0 <= i < conversations.len() && (#[trigger] conversations[i]).id == id
                && direct_peer_of(conversations[i].kind) == Some(peer),
    decreases conversations.len(),
{
    let list = strangers_in(conversations, known);
    if conversations.len() > 0 {
        let rest = conversations.drop_last();
        let before = strangers_in(rest, known);
        let last = conversations.last();
        lemma_strangers(rest, known, id, peer);
        if list.contains((id, peer)) {
            let k = choose|k: int| 0 <= k < list.len() && list[k] == (id, peer);
            if k < before.len() {
                assert(before[k] == (id, peer));
                assert(before.contains((id, peer)));
                let i = choose|i: int|
                    0 <= i < rest.len() && (#[trigger] rest[i]).id == id && direct_peer_of(
                        rest[i].kind,
                    ) == Some(peer);
                assert(conversations[i] == rest[i]);
            } else {
                assert(conversations[conversations.len() - 1] == last);
            }
        }
        if !known.contains(peer) && exists|i: int|
            0 <= i < conversations.len() && (#[trigger] conversations[i]).id == id
                && direct_peer_of(conversations[i].kind) == Some(peer) {
            let i = choose|i: int|
                0 <= i < conversations.len() && (#[trigger] conversations[i]).id == id
                    && direct_peer_of(conversations[i].kind) == Some(peer);
            if i < rest.len() {
                assert(rest[i] == conversations[i]);
                assert(before.contains((id, peer)));
                let k = choose|k: int| 0 <= k < before.len() && before[k] == (id, peer);
                assert(list[k] == (id, peer));
            } else {
                assert(list[list.len() - 1] == (id, peer));
            }
        }
    }
}

proof fn lemma_labels_of(
    members: Seq<Seq<char>>,
    ours: Option<Seq<u8>>,
    names: Map<Seq<u8>, Seq<char>>,
    kind: GroupMemberKind,
    label: LabelView,
)
    ensures
        labels_of(members, ours, names, kind).contains(label) <==> label.kind == kind && exists|
            i: int,
        |
            0 <= i < members.len() && label_of(#[trigger] members[i], ours, names) == Some(label),
    decreases members.len(),
{
    if members.len() > 0 {
        let shorter = members.drop_last();
        let rest = labels_of(shorter, ours, names, kind);
        lemma_labels_of(shorter, ours, names, kind, label);
        assert(members[members.len() - 1] == members.last());
        match label_of(members.last(), ours, names) {
            Some(last) => {
                lemma_held_after_push(rest, last, label);
            },
            None => {},
        }
        if rest.contains(label) {
            let i = choose|i: int|
                0 <= i < shorter.len() && label_of(#[trigger] shorter[i], ours, names) == Some(
                    label,
                );
            assert(members[i] == shorter[i]);
        }
        if exists|i: int|
            0 <= i < members.len() && label_of(#[trigger] members[i], ours, names) == Some(label) {
            let i = choose|i: int|
                0 <= i < members.len() && label_of(#[trigger] members[i], ours, names) == Some(
                    label,
                );
            if i < shorter.len() {
                assert(shorter[i] == members[i]);
            }
        }
    }
}

/// Every member of a group is shown, but for blank entries, and nobody else; we stand first.
pub proof fn law_every_member_is_shown(
    members: Seq<Seq<char>>,
    ours: Option<Seq<u8>>,
    names: Map<Seq<u8>, Seq<char>>,
    label: LabelView,
)
    ensures
        group_labels(members, ours, names).contains(label) <==> exists|i: int|
            0 <= i < members.len() && label_of(#[trigger] members[i], ours, names) == Some(label),
        (exists|i: int|
            0 <= i < members.len() && trimmed(#[trigger] members[i]).len() > 0 && parsed_key(
                trimmed(members[i]),
            ) is Ok && ours == Some(parsed_key(trimmed(members[i]))->Ok_0)) ==> group_labels(
            members,
            ours,
            names,
        ).len() > 0 && group_labels(members, ours, names)[0].kind == GroupMemberKind::You,
{
    let you = labels_of(members, ours, names, GroupMemberKind::You);
    let first: Seq<LabelView> = if you.len() > 0 {
        seq![you.last()]
    } else {
        Seq::empty()
    };
    let friends = labels_of(members, ours, names, GroupMemberKind::Friend);
    let others = labels_of(members, ours, names, GroupMemberKind::Unknown);
    let a = alphabetical(friends);
    let b = alphabetical(others);
    let all = group_labels(members, ours, names);
    assert(all == first + a + b);
    lemma_labels_of(members, ours, names, GroupMemberKind::You, label);
    lemma_labels_of(members, ours, names, GroupMemberKind::Friend, label);
    lemma_labels_of(members, ours, names, GroupMemberKind::Unknown, label);
    law_arranging_keeps_everything(friends, label_keys(friends), label);
    law_arranging_keeps_everything(others, label_keys(others), label);
    if you.len() > 0 {
        let us = you.last();
        assert(you[you.len() - 1] == us);
        assert(you.contains(us));
        lemma_labels_of(members, ours, names, GroupMemberKind::You, us);
        assert(all[0] == us);
        if you.contains(label) {
            assert(label == us);
        }
    }
    if all.contains(label) {
        let i = choose|i: int| 0 <= i < all.len() && all[i] == label;
        if i < first.len() {
            assert(you.contains(label));
        } else if i < first.len() + a.len() {
            assert(a[i - first.len()] == label);
        } else {
            assert(b[i - first.len() - a.len()] == label);
        }
    }
    if a.contains(label) {
        let i = choose|i: int| 0 <= i < a.len() && a[i] == label;
        assert(all[first.len() + i] == label);
    }
    if b.contains(label) {
        let i = choose|i: int| 0 <= i < b.len() && b[i] == label;
        assert(all[first.len() + a.len() + i] == label);
    }
    if exists|i: int|
        0 <= i < members.len() && trimmed(#[trigger] members[i]).len() > 0 && parsed_key(
            trimmed(members[i]),
        ) is Ok && ours == Some(parsed_key(trimmed(members[i]))->Ok_0) {
        let i = choose|i: int|
            0 <= i < members.len() && trimmed(#[trigger] members[i]).len() > 0 && parsed_key(
                trimmed(members[i]),
            ) is Ok && ours == Some(parsed_key(trimmed(members[i]))->Ok_0);
        let us = label_of(members[i], ours, names)->0;
        lemma_labels_of(members, ours, names, GroupMemberKind::You, us);
        assert(you.contains(us));
    }
}

/// A member is shown as who it is: we as such, a peer with a name by that name, another by its
/// short key, and what is no key by its beginning.
pub proof fn law_members_are_labelled(
    member: Seq<char>,
    ours: Option<Seq<u8>>,
    names: Map<Seq<u8>, Seq<char>>,
    key: Seq<u8>,
)
    ensures
        trimmed(member).len() == 0 <==> label_of(member, ours, names) is None,
        trimmed(member).len() > 0 && parsed_key(trimmed(member)) is Err ==> label_of(
            member,
            ours,
            names,
        ) == Some(
            LabelView {
                key: None,
                kind: GroupMemberKind::Unknown,
                text: ellipsized(trimmed(member), 16),
            },
        ),
        trimmed(member).len() > 0 && parsed_key(trimmed(member)) == Ok::<Seq<u8>, Seq<char>>(key)
            ==> ({
            let label = label_of(member, ours, names)->0;
            let named = names.contains_key(key) && trimmed(names[key]).len() > 0;
            &&& label.key == Some(key)
            &&& label.kind == GroupMemberKind::You <==> ours == Some(key)
            &&& label.kind == GroupMemberKind::Friend <==> ours != Some(key) && named
            &&& ours == Some(key) ==> label.text == "You"@
            &&& ours != Some(key) && named ==> label.text == trimmed(names[key])
            &&& ours != Some(key) && !named ==> label.text == "Peer "@ + short_form(key)
        }),
{
}

} // verus!
