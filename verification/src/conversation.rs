//! Conversations: who belongs to them, how they are named, and which replica of one is kept.
use vstd::prelude::*;
use crate::digits::{be_bytes, hex_lower, padded_signed, push_hex16, push_padded_signed};
use crate::node::{keys_of, list_has_node, parsed_key, NodeId};
use crate::table::Table;
use crate::text::{
    chars_of, lemma_held_after_push, lemma_held_or_last, lemma_text_lt_total, list_has, push_chars, relate_text, text_lt, texts, trim, trimmed,
    Relation,
};

verus! {

/// The longest title of a group, in characters.
pub const MAX_GROUP_TITLE: usize = 128;

/// The longest title in an invitation, in bytes.
pub const MAX_INVITE_TITLE: usize = 512;

/// The most members in an invitation.
pub const MAX_INVITE_MEMBERS: usize = 128;

/// Whether a conversation is between two peers or a group.
#[derive(Debug, PartialEq, Eq)]
pub enum ConversationKind {
    Direct { peer_id: String },
    Group,
}

/// The contents of a `ConversationKind`.
pub enum KindView {
    Direct { peer_id: Seq<char> },
    Group,
}

impl View for ConversationKind {
    type V = KindView;

    open spec fn view(&self) -> KindView {
        match self {
            ConversationKind::Direct { peer_id } => KindView::Direct { peer_id: peer_id@ },
            ConversationKind::Group => KindView::Group,
        }
    }
}

impl Clone for ConversationKind {
    fn clone(&self) -> (r: Self)
        ensures
            r@ == self@,
    {
        match self {
            ConversationKind::Direct { peer_id } => ConversationKind::Direct {
                peer_id: peer_id.clone(),
            },
            ConversationKind::Group => ConversationKind::Group,
        }
    }
}

/// A conversation. Its epoch rises when its history is deleted.
#[derive(Debug, PartialEq, Eq)]
pub struct ChatConversation {
    pub id: String,
    pub title: String,
    pub kind: ConversationKind,
    pub members: Vec<String>,
    pub document_id: String,
    pub history_epoch: u64,
}

/// The contents of a `ChatConversation`.
pub struct ConversationView {
    pub id: Seq<char>,
    pub title: Seq<char>,
    pub kind: KindView,
    pub members: Seq<Seq<char>>,
    pub document_id: Seq<char>,
    pub history_epoch: int,
}

impl View for ChatConversation {
    type V = ConversationView;

    open spec fn view(&self) -> ConversationView {
        ConversationView {
            id: self.id@,
            title: self.title@,
            kind: self.kind@,
            members: texts(self.members@),
            document_id: self.document_id@,
            history_epoch: self.history_epoch as int,
        }
    }
}

impl Clone for ChatConversation {
    fn clone(&self) -> (r: Self)
        ensures
            r@ == self@,
    {
        let members = self.members.clone();
        assert(texts(members@) =~= texts(self.members@));
        ChatConversation {
            id: self.id.clone(),
            title: self.title.clone(),
            kind: self.kind.clone(),
            members,
            document_id: self.document_id.clone(),
            history_epoch: self.history_epoch,
        }
    }
}

/// The peer that a direct conversation is with.
pub open spec fn direct_peer_of(kind: KindView) -> Option<Seq<u8>> {
    match kind {
        KindView::Direct { peer_id } => match parsed_key(peer_id) {
            Ok(key) => Some(key),
            Err(_) => None,
        },
        KindView::Group => None,
    }
}

impl ChatConversation {
    /// The other peer of a direct conversation, if its key can be read.
    pub fn direct_peer(&self) -> (r: Option<NodeId>)
        ensures
            match r {
                Some(peer) => direct_peer_of(self@.kind) == Some(peer@),
                None => direct_peer_of(self@.kind) is None,
            },
    {
        match &self.kind {
            ConversationKind::Direct { peer_id } => match NodeId::parse(peer_id.as_str()) {
                Ok(peer) => Some(peer),
                Err(_) => None,
            },
            ConversationKind::Group => None,
        }
    }
}

/// A conversation with the ticket that opens its document.
#[derive(Debug)]
pub struct StoredConversation {
    pub public: ChatConversation,
    pub ticket: String,
}

impl Clone for StoredConversation {
    fn clone(&self) -> (r: Self)
        ensures
            r.public@ == self.public@,
            r.ticket@ == self.ticket@,
    {
        StoredConversation { public: self.public.clone(), ticket: self.ticket.clone() }
    }
}

// ---------------------------------------------------------------------------
// Names
// ---------------------------------------------------------------------------

/// The id of the direct conversation between two peers.
pub open spec fn direct_id(a: Seq<u8>, b: Seq<u8>) -> Seq<char> {
    if text_lt(hex_lower(b), hex_lower(a)) {
        "dm/"@ + hex_lower(b) + "/"@ + hex_lower(a)
    } else {
        "dm/"@ + hex_lower(a) + "/"@ + hex_lower(b)
    }
}

/// The id of the direct conversation between two peers, whichever of them asks.
pub fn direct_conversation_id(a: NodeId, b: NodeId) -> (s: String)
    ensures
        s@ == direct_id(a@, b@),
{
    let first = a.to_text();
    let second = b.to_text();
    let mut s: String = "dm/".to_owned();
    proof {
        lemma_text_lt_total(second@, first@);
    }
    match relate_text(second.as_str(), first.as_str()) {
        Relation::Before => {
            s.append(second.as_str());
            s.append("/");
            s.append(first.as_str());
        },
        _ => {
            s.append(first.as_str());
            s.append("/");
            s.append(second.as_str());
        },
    }
    s
}

/// Both peers name their conversation alike.
pub proof fn law_direct_ids_are_symmetric(a: Seq<u8>, b: Seq<u8>)
    ensures
        direct_id(a, b) == direct_id(b, a),
{
    lemma_text_lt_total(hex_lower(a), hex_lower(b));
}

/// Conversations with different peers have different names.
pub proof fn law_direct_ids_are_distinct(ours: Seq<u8>, a: Seq<u8>, b: Seq<u8>)
    requires
        ours.len() == 32,
        a.len() == 32,
        b.len() == 32,
        direct_id(ours, a) == direct_id(ours, b),
    ensures
        a == b,
{
    reveal_strlit("dm/");
    reveal_strlit("/");
    let x = direct_id(ours, a);
    let y = direct_id(ours, b);
    let (x1, x2) = if text_lt(hex_lower(a), hex_lower(ours)) {
        (a, ours)
    } else {
        (ours, a)
    };
    let (y1, y2) = if text_lt(hex_lower(b), hex_lower(ours)) {
        (b, ours)
    } else {
        (ours, b)
    };
    assert(hex_lower(x1).len() == 64 && hex_lower(x2).len() == 64);
    assert(hex_lower(y1).len() == 64 && hex_lower(y2).len() == 64);
    assert(x.subrange(3, 67) =~= hex_lower(x1));
    assert(y.subrange(3, 67) =~= hex_lower(y1));
    assert(x.subrange(68, 132) =~= hex_lower(x2));
    assert(y.subrange(68, 132) =~= hex_lower(y2));
    crate::digits::lemma_hex_lower_injective(x1, y1);
    crate::digits::lemma_hex_lower_injective(x2, y2);
}

/// The id of a group made by a peer at a time.
pub open spec fn group_id(ours: Seq<u8>, now: int, nonce: nat) -> Seq<char> {
    "group/"@ + hex_lower(ours) + "/"@ + padded_signed(now, 20) + "/"@ + hex_lower(
        be_bytes(nonce, 8),
    )
}

// ---------------------------------------------------------------------------
// Members
// ---------------------------------------------------------------------------

/// Whether a list of texts ascends strictly.
pub open spec fn ascending(list: Seq<Seq<char>>) -> bool {
    forall|i: int, j: int| 0 <= i < j < list.len() ==> text_lt(#[trigger] list[i], #[trigger] list[j])
}

/// Whether `members` are the texts of the keys in `keys`, each once and in order.
pub open spec fn members_of(keys: Seq<Seq<u8>>, members: Seq<Seq<char>>) -> bool {
    &&& ascending(members)
    &&& forall|key: Seq<u8>| #[trigger] keys.contains(key) ==> members.contains(hex_lower(key))
    &&& forall|member: Seq<char>| #[trigger]
        members.contains(member) ==> exists|key: Seq<u8>| #[trigger]
            keys.contains(key) && member == hex_lower(key)
}

/// The texts of `nodes`, each once and in order.
pub fn sorted_members(nodes: &Vec<NodeId>) -> (members: Vec<String>)
    ensures
        members_of(keys_of(nodes@), texts(members@)),
{
    let mut set: Table<String, ()> = Table::new();
    let mut i: usize = 0;
    while i < nodes.len()
        invariant
            0 <= i <= nodes@.len(),
            set.wf(),
            forall|j: int| 0 <= j < i ==> set@.contains_key(hex_lower(#[trigger] nodes@[j]@)),
            forall|name: Seq<char>| #[trigger]
                set@.contains_key(name) ==> exists|j: int|
                    0 <= j < i && name == hex_lower(#[trigger] nodes@[j]@),
        decreases nodes@.len() - i,
    {
        let ghost before = set@;
        set.insert(nodes[i].to_text(), ());
        proof {
            assert forall|name: Seq<char>| #[trigger] set@.contains_key(name) implies exists|j: int|
                0 <= j < i + 1 && name == hex_lower(#[trigger] nodes@[j]@) by {
                if before.contains_key(name) {
                    let j = choose|j: int| 0 <= j < i && name == hex_lower(#[trigger] nodes@[j]@);
                    assert(0 <= j < i + 1 && name == hex_lower(nodes@[j]@));
                } else {
                    assert(name == hex_lower(nodes@[i as int]@));
                }
            }
        }
        i += 1;
    }
    let mut members: Vec<String> = Vec::new();
    let mut k: usize = 0;
    while k < set.entries.len()
        invariant
            0 <= k <= set.entries@.len(),
            members@.len() == k,
            forall|j: int| 0 <= j < k ==> #[trigger] members@[j]@ == set.entries@[j].0@,
        decreases set.entries@.len() - k,
    {
        members.push(set.entries[k].0.clone());
        k += 1;
    }
    proof {
        assert(texts(members@) =~= set.names());
        let keys = keys_of(nodes@);
        assert forall|key: Seq<u8>| #[trigger] keys.contains(key) implies texts(
            members@,
        ).contains(hex_lower(key)) by {
            let j = choose|j: int| 0 <= j < keys.len() && keys[j] == key;
            assert(set@.contains_key(hex_lower(nodes@[j]@)));
        }
        assert forall|member: Seq<char>| #[trigger] texts(members@).contains(
            member,
        ) implies exists|key: Seq<u8>| #[trigger] keys.contains(key) && member == hex_lower(
            key,
        ) by {
            assert(set@.contains_key(member));
            let j = choose|j: int|
                0 <= j < nodes@.len() && member == hex_lower(#[trigger] nodes@[j]@);
            assert(keys[j] == nodes@[j]@);
            assert(keys.contains(nodes@[j]@));
        }
    }
    members
}

/// Two ascending lists with the same members are the same list.
pub proof fn law_members_are_unique(keys: Seq<Seq<u8>>, a: Seq<Seq<char>>, b: Seq<Seq<char>>)
    requires
        members_of(keys, a),
        members_of(keys, b),
    ensures
        a == b,
{
    assert forall|m: Seq<char>| a.contains(m) <==> b.contains(m) by {
        if a.contains(m) {
            let key = choose|key: Seq<u8>| #[trigger] keys.contains(key) && m == hex_lower(key);
            assert(b.contains(hex_lower(key)));
        }
        if b.contains(m) {
            let key = choose|key: Seq<u8>| #[trigger] keys.contains(key) && m == hex_lower(key);
            assert(a.contains(hex_lower(key)));
        }
    }
    lemma_ascending_unique(a, b);
}

/// Two ascending lists that hold the same texts are equal.
pub proof fn lemma_ascending_unique(a: Seq<Seq<char>>, b: Seq<Seq<char>>)
    requires
        ascending(a),
        ascending(b),
        forall|m: Seq<char>| a.contains(m) <==> b.contains(m),
    ensures
        a == b,
    decreases a.len(),
{
    if a.len() == 0 {
        if b.len() > 0 {
            assert(b.contains(b[0]));
            assert(a.contains(b[0]));
        }
        assert(a =~= b);
    } else {
        assert(a.contains(a[0]));
        assert(b.contains(a[0]));
        let j = choose|j: int| 0 <= j < b.len() && b[j] == a[0];
        assert(b.contains(b[0]));
        let k = choose|k: int| 0 <= k < a.len() && a[k] == b[0];
        lemma_text_lt_total(a[0], b[0]);
        if j > 0 {
            assert(text_lt(b[0], b[j]));
            if k > 0 {
                assert(text_lt(a[0], a[k]));
            }
        }
        assert(a[0] == b[0]);
        let x = a.drop_first();
        let y = b.drop_first();
        assert(ascending(x)) by {
            assert forall|i: int, j: int| 0 <= i < j < x.len() implies text_lt(
                #[trigger] x[i],
                #[trigger] x[j],
            ) by {
                assert(text_lt(a[i + 1], a[j + 1]));
            }
        }
        assert(ascending(y)) by {
            assert forall|i: int, j: int| 0 <= i < j < y.len() implies text_lt(
                #[trigger] y[i],
                #[trigger] y[j],
            ) by {
                assert(text_lt(b[i + 1], b[j + 1]));
            }
        }
        assert forall|m: Seq<char>| x.contains(m) <==> y.contains(m) by {
            if x.contains(m) {
                let i = choose|i: int| 0 <= i < x.len() && x[i] == m;
                assert(a[i + 1] == m);
                assert(a.contains(m));
                assert(b.contains(m));
                let i2 = choose|i: int| 0 <= i < b.len() && b[i] == m;
                assert(text_lt(a[0], a[i + 1]));
                lemma_text_lt_total(m, m);
                assert(i2 != 0);
                assert(y[i2 - 1] == m);
            }
            if y.contains(m) {
                let i = choose|i: int| 0 <= i < y.len() && y[i] == m;
                assert(b[i + 1] == m);
                assert(b.contains(m));
                assert(a.contains(m));
                let i2 = choose|i: int| 0 <= i < a.len() && a[i] == m;
                assert(text_lt(b[0], b[i + 1]));
                lemma_text_lt_total(m, m);
                assert(i2 != 0);
                assert(x[i2 - 1] == m);
            }
        }
        lemma_ascending_unique(x, y);
        assert(a =~= seq![a[0]] + x);
        assert(b =~= seq![b[0]] + y);
    }
}

/// Whether `node` is among `members`.
pub fn is_member(members: &Vec<String>, node: &NodeId) -> (r: bool)
    ensures
        r == texts(members@).contains(hex_lower(node@)),
{
    let text = node.to_text();
    list_has(members, text.as_str())
}

/// The peers among `members` other than `ours`, where their keys can be read.
pub open spec fn peers_among(members: Seq<Seq<char>>, ours: Seq<u8>) -> Seq<Seq<u8>>
    decreases members.len(),
{
    if members.len() == 0 {
        Seq::empty()
    } else {
        let rest = peers_among(members.drop_last(), ours);
        match parsed_key(members.last()) {
            Ok(key) => if key != ours {
                rest.push(key)
            } else {
                rest
            },
            Err(_) => rest,
        }
    }
}

/// The other members of a conversation.
pub fn other_members(members: &Vec<String>, ours: &NodeId) -> (peers: Vec<NodeId>)
    ensures
        keys_of(peers@) == peers_among(texts(members@), ours@),
{
    let mut peers: Vec<NodeId> = Vec::new();
    let mut i: usize = 0;
    while i < members.len()
        invariant
            0 <= i <= members@.len(),
            keys_of(peers@) == peers_among(texts(members@).take(i as int), ours@),
        decreases members@.len() - i,
    {
        let ghost next = texts(members@).take(i as int + 1);
        assert(next.drop_last() =~= texts(members@).take(i as int));
        let ghost before = peers@;
        match NodeId::parse(members[i].as_str()) {
            Ok(peer) => {
                if !peer.same(ours) {
                    peers.push(peer);
                    assert(keys_of(peers@) =~= keys_of(before).push(peer@));
                }
            },
            Err(_) => {},
        }
        i += 1;
    }
    assert(texts(members@).take(members@.len() as int) =~= texts(members@));
    peers
}

/// `list` with the keys of `more` that it does not hold yet, each once.
pub open spec fn with_missing(list: Seq<Seq<u8>>, more: Seq<Seq<u8>>) -> Seq<Seq<u8>>
    decreases more.len(),
{
    if more.len() == 0 {
        list
    } else {
        let rest = with_missing(list, more.drop_last());
        if rest.contains(more.last()) {
            rest
        } else {
            rest.push(more.last())
        }
    }
}

/// The keys other than `ours`.
pub open spec fn without(keys: Seq<Seq<u8>>, ours: Seq<u8>) -> Seq<Seq<u8>>
    decreases keys.len(),
{
    if keys.len() == 0 {
        Seq::empty()
    } else {
        let rest = without(keys.drop_last(), ours);
        if keys.last() != ours {
            rest.push(keys.last())
        } else {
            rest
        }
    }
}

/// The peers that a document is synchronised with: those that its ticket names and those
/// members that it does not name.
pub fn sync_peers(ticket: &Vec<NodeId>, members: &Vec<String>, ours: &NodeId) -> (peers: Vec<
    NodeId,
>)
    ensures
        keys_of(peers@) == with_missing(
            without(keys_of(ticket@), ours@),
            peers_among(texts(members@), ours@),
        ),
{
    let mut peers: Vec<NodeId> = Vec::new();
    let mut i: usize = 0;
    while i < ticket.len()
        invariant
            0 <= i <= ticket@.len(),
            keys_of(peers@) == without(keys_of(ticket@).take(i as int), ours@),
        decreases ticket@.len() - i,
    {
        let ghost next = keys_of(ticket@).take(i as int + 1);
        assert(next.drop_last() =~= keys_of(ticket@).take(i as int));
        let ghost before = peers@;
        if !ticket[i].same(ours) {
            peers.push(ticket[i]);
            assert(keys_of(peers@) =~= keys_of(before).push(ticket@[i as int]@));
        }
        i += 1;
    }
    assert(keys_of(ticket@).take(ticket@.len() as int) =~= keys_of(ticket@));
    let ghost named = keys_of(peers@);
    let others = other_members(members, ours);
    let mut k: usize = 0;
    while k < others.len()
        invariant
            0 <= k <= others@.len(),
            keys_of(peers@) == with_missing(named, keys_of(others@).take(k as int)),
        decreases others@.len() - k,
    {
        let ghost next = keys_of(others@).take(k as int + 1);
        assert(next.drop_last() =~= keys_of(others@).take(k as int));
        let ghost before = peers@;
        if !list_has_node(&peers, &others[k]) {
            peers.push(others[k]);
            assert(keys_of(peers@) =~= keys_of(before).push(others@[k as int]@));
        }
        k += 1;
    }
    assert(keys_of(others@).take(others@.len() as int) =~= keys_of(others@));
    peers
}

/// A document is never synchronised with ourselves.
pub proof fn law_sync_leaves_us_out(ticket: Seq<Seq<u8>>, members: Seq<Seq<char>>, ours: Seq<u8>)
    ensures
        !with_missing(without(ticket, ours), peers_among(members, ours)).contains(ours),
{
    lemma_without(ticket, ours);
    lemma_peers_among(members, ours);
    lemma_with_missing(without(ticket, ours), peers_among(members, ours), ours);
}

proof fn lemma_without(keys: Seq<Seq<u8>>, ours: Seq<u8>)
    ensures
        !without(keys, ours).contains(ours),
    decreases keys.len(),
{
    if keys.len() > 0 {
        lemma_without(keys.drop_last(), ours);
    }
}

proof fn lemma_peers_among(members: Seq<Seq<char>>, ours: Seq<u8>)
    ensures
        !peers_among(members, ours).contains(ours),
    decreases members.len(),
{
    if members.len() > 0 {
        lemma_peers_among(members.drop_last(), ours);
    }
}

proof fn lemma_with_missing(list: Seq<Seq<u8>>, more: Seq<Seq<u8>>, ours: Seq<u8>)
    requires
        !list.contains(ours),
        !more.contains(ours),
    ensures
        !with_missing(list, more).contains(ours),
    decreases more.len(),
{
    if more.len() > 0 {
        assert(more.contains(more.last()));
        assert forall|k: Seq<u8>| more.drop_last().contains(k) implies more.contains(k) by {
            let i = choose|i: int| 0 <= i < more.drop_last().len() && more.drop_last()[i] == k;
            assert(more[i] == k);
        }
        lemma_with_missing(list, more.drop_last(), ours);
    }
}

// ---------------------------------------------------------------------------
// New conversations
// ---------------------------------------------------------------------------

/// What a new conversation is made of, before its document exists.
#[derive(Debug)]
pub struct ConversationPlan {
    pub id: String,
    pub title: String,
    pub kind: ConversationKind,
    pub members: Vec<String>,
    pub history_epoch: u64,
}

impl ConversationPlan {
    /// The conversation, once its document has been made.
    pub fn with_document(self, document_id: String, ticket: String) -> (r: StoredConversation)
        ensures
            r.public@ == (ConversationView {
                id: self.id@,
                title: self.title@,
                kind: self.kind@,
                members: texts(self.members@),
                document_id: document_id@,
                history_epoch: self.history_epoch as int,
            }),
            r.ticket@ == ticket@,
    {
        StoredConversation {
            public: ChatConversation {
                id: self.id,
                title: self.title,
                kind: self.kind,
                members: self.members,
                document_id,
                history_epoch: self.history_epoch,
            },
            ticket,
        }
    }
}

/// Plans the direct conversation with `peer`.
pub fn plan_direct(ours: NodeId, peer: NodeId, title: String) -> (plan: ConversationPlan)
    ensures
        plan.id@ == direct_id(ours@, peer@),
        plan.title@ == title@,
        plan.kind@ == (KindView::Direct { peer_id: hex_lower(peer@) }),
        members_of(seq![ours@, peer@], texts(plan.members@)),
        plan.history_epoch == 0,
{
    let mut nodes: Vec<NodeId> = Vec::new();
    nodes.push(ours);
    nodes.push(peer);
    assert(keys_of(nodes@) =~= seq![ours@, peer@]);
    ConversationPlan {
        id: direct_conversation_id(ours, peer),
        title,
        kind: ConversationKind::Direct { peer_id: peer.to_text() },
        members: sorted_members(&nodes),
        history_epoch: 0,
    }
}

/// Why a group cannot be made.
#[derive(Debug, Clone, Copy, PartialEq, Eq, Structural)]
pub enum GroupError {
    EmptyName,
    NoOtherMember,
}

/// What is wrong with a new group, the first fault found.
pub open spec fn group_fault(title: Seq<char>, members: Seq<Seq<u8>>, ours: Seq<u8>) -> Option<
    GroupError,
> {
    if trimmed(title).len() == 0 {
        Some(GroupError::EmptyName)
    } else if forall|i: int| 0 <= i < members.len() ==> members[i] == ours {
        Some(GroupError::NoOtherMember)
    } else {
        None
    }
}

/// The first characters of a group's name.
pub open spec fn group_title(title: Seq<char>) -> Seq<char> {
    let name = trimmed(title);
    if name.len() <= MAX_GROUP_TITLE {
        name
    } else {
        name.take(MAX_GROUP_TITLE as int)
    }
}

/// Checks the name and the members of a new group.
pub fn check_group(title: &str, members: &Vec<NodeId>, ours: &NodeId) -> (r: Result<
    (),
    GroupError,
>)
    ensures
        match r {
            Ok(_) => group_fault(title@, keys_of(members@), ours@) is None,
            Err(e) => group_fault(title@, keys_of(members@), ours@) == Some(e),
        },
{
    let name = trim(title);
    if name.as_str().is_empty() {
        return Err(GroupError::EmptyName);
    }
    let mut i: usize = 0;
    while i < members.len()
        invariant
            0 <= i <= members@.len(),
            forall|j: int| 0 <= j < i ==> #[trigger] keys_of(members@)[j] == ours@,
            trimmed(title@).len() > 0,
        decreases members@.len() - i,
    {
        if !members[i].same(ours) {
            assert(keys_of(members@)[i as int] != ours@);
            return Ok(());
        }
        i += 1;
    }
    Err(GroupError::NoOtherMember)
}

/// Plans a group of `members` and ourselves.
pub fn plan_group(
    title: &str,
    members: &Vec<NodeId>,
    ours: NodeId,
    now: i64,
    nonce: u64,
) -> (r: Result<ConversationPlan, GroupError>)
    ensures
        match r {
            Ok(plan) => group_fault(title@, keys_of(members@), ours@) is None && plan.id@
                == group_id(ours@, now as int, nonce as nat) && plan.title@ == group_title(title@)
                && plan.kind@ == KindView::Group && members_of(
                keys_of(members@).push(ours@),
                texts(plan.members@),
            ) && plan.history_epoch == 0,
            Err(e) => group_fault(title@, keys_of(members@), ours@) == Some(e),
        },
{
    match check_group(title, members, &ours) {
        Ok(_) => {},
        Err(e) => {
            return Err(e);
        },
    }
    let name = trim(title);
    let mut all: Vec<NodeId> = Vec::new();
    let mut i: usize = 0;
    while i < members.len()
        invariant
            0 <= i <= members@.len(),
            all@ == members@.take(i as int),
        decreases members@.len() - i,
    {
        assert(members@.take(i as int + 1) =~= members@.take(i as int).push(members@[i as int]));
        all.push(members[i]);
        i += 1;
    }
    all.push(ours);
    assert(keys_of(all@) =~= keys_of(members@).push(ours@));
    let mut id: String = "group/".to_owned();
    id.append(ours.to_text().as_str());
    id.append("/");
    push_padded_signed(&mut id, now, 20);
    id.append("/");
    push_hex16(&mut id, nonce);
    let chars = chars_of(name.as_str());
    let keep: usize = if chars.len() <= MAX_GROUP_TITLE {
        chars.len()
    } else {
        MAX_GROUP_TITLE
    };
    let mut short: String = String::new();
    push_chars(&mut short, &chars, 0, keep);
    assert(short@ =~= group_title(title@));
    Ok(
        ConversationPlan {
            id,
            title: short,
            kind: ConversationKind::Group,
            members: sorted_members(&all),
            history_epoch: 0,
        },
    )
}

/// Plans the fresh, empty document that takes the place of a conversation's history.
pub fn plan_rotation(current: &StoredConversation) -> (plan: ConversationPlan)
    ensures
        plan.id@ == current.public@.id,
        plan.title@ == current.public@.title,
        plan.kind@ == current.public@.kind,
        texts(plan.members@) == current.public@.members,
        plan.history_epoch == if current.public.history_epoch == u64::MAX {
            u64::MAX as int
        } else {
            current.public.history_epoch + 1
        },
{
    let copy = current.public.clone();
    ConversationPlan {
        id: copy.id,
        title: copy.title,
        kind: copy.kind,
        members: copy.members,
        history_epoch: if copy.history_epoch == u64::MAX {
            u64::MAX
        } else {
            copy.history_epoch + 1
        },
    }
}

proof fn lemma_peers_listed(members: Seq<Seq<char>>, ours: Seq<u8>, key: Seq<u8>)
    ensures
        peers_among(members, ours).contains(key) <==> key != ours && exists|i: int|
            0 <= i < members.len() && parsed_key(#[trigger] members[i]) == Ok::<
                Seq<u8>,
                Seq<char>,
            >(key),
    decreases members.len(),
{
    if members.len() > 0 {
        let shorter = members.drop_last();
        let rest = peers_among(shorter, ours);
        lemma_peers_listed(shorter, ours, key);
        assert(members[members.len() - 1] == members.last());
        if exists|i: int|
            0 <= i < shorter.len() && parsed_key(#[trigger] shorter[i]) == Ok::<
                Seq<u8>,
                Seq<char>,
            >(key) {
            let i = choose|i: int|
                0 <= i < shorter.len() && parsed_key(#[trigger] shorter[i]) == Ok::<
                    Seq<u8>,
                    Seq<char>,
                >(key);
            assert(members[i] == shorter[i]);
        }
        if exists|i: int|
            0 <= i < members.len() && parsed_key(#[trigger] members[i]) == Ok::<
                Seq<u8>,
                Seq<char>,
            >(key) {
            let i = choose|i: int|
                0 <= i < members.len() && parsed_key(#[trigger] members[i]) == Ok::<
                    Seq<u8>,
                    Seq<char>,
                >(key);
            if i < shorter.len() {
                assert(shorter[i] == members[i]);
            }
        }
        match parsed_key(members.last()) {
            Ok(last) => {
                lemma_held_after_push(rest, last, key);
            },
            Err(_) => {},
        }
    }
}

/// Wake-ups and invitations go to every member whose key can be read but ourselves, and to
/// nobody else.
pub proof fn law_every_other_member_is_reached(
    members: Seq<Seq<char>>,
    ours: Seq<u8>,
    key: Seq<u8>,
)
    ensures
        peers_among(members, ours).contains(key) <==> key != ours && exists|i: int|
            0 <= i < members.len() && parsed_key(#[trigger] members[i]) == Ok::<
                Seq<u8>,
                Seq<char>,
            >(key),
{
    lemma_peers_listed(members, ours, key);
}

proof fn lemma_without_holds(keys: Seq<Seq<u8>>, ours: Seq<u8>, key: Seq<u8>)
    ensures
        without(keys, ours).contains(key) <==> keys.contains(key) && key != ours,
    decreases keys.len(),
{
    if keys.len() > 0 {
        lemma_without_holds(keys.drop_last(), ours, key);
        lemma_held_or_last(keys, key);
        lemma_held_after_push(without(keys.drop_last(), ours), keys.last(), key);
    }
}

proof fn lemma_with_missing_holds(list: Seq<Seq<u8>>, more: Seq<Seq<u8>>, key: Seq<u8>)
    ensures
        with_missing(list, more).contains(key) <==> list.contains(key) || more.contains(key),
        list.is_prefix_of(with_missing(list, more)),
    decreases more.len(),
{
    if more.len() > 0 {
        let rest = with_missing(list, more.drop_last());
        lemma_with_missing_holds(list, more.drop_last(), key);
        lemma_held_or_last(more, key);
        lemma_held_after_push(rest, more.last(), key);
    }
}

/// A document is synchronised with every peer that its ticket names, these first, and with every
/// member whose key can be read, but never with ourselves or anybody else.
pub proof fn law_sync_reaches_ticket_and_members(
    ticket: Seq<Seq<u8>>,
    members: Seq<Seq<char>>,
    ours: Seq<u8>,
    key: Seq<u8>,
)
    ensures
        ({
            let peers = with_missing(without(ticket, ours), peers_among(members, ours));
            let member = exists|i: int|
                0 <= i < members.len() && parsed_key(#[trigger] members[i]) == Ok::<
                    Seq<u8>,
                    Seq<char>,
                >(key);
            &&& peers.contains(key) <==> key != ours && (ticket.contains(key) || member)
            &&& without(ticket, ours).is_prefix_of(peers)
        }),
{
    lemma_without_holds(ticket, ours, key);
    lemma_peers_listed(members, ours, key);
    lemma_with_missing_holds(without(ticket, ours), peers_among(members, ours), key);
}

/// A conversation has just those members that it was made with, once each.
pub proof fn law_members_are_those_invited(
    keys: Seq<Seq<u8>>,
    members: Seq<Seq<char>>,
    key: Seq<u8>,
)
    requires
        members_of(keys, members),
    ensures
        members.contains(hex_lower(key)) <==> keys.contains(key),
        members.no_duplicates(),
        members.len() <= keys.len(),
{
    if members.contains(hex_lower(key)) {
        let other = choose|other: Seq<u8>| #[trigger]
            keys.contains(other) && hex_lower(key) == hex_lower(other);
        crate::digits::lemma_hex_lower_injective(key, other);
    }
    assert forall|i: int, j: int| 0 <= i < j < members.len() implies members[i] != members[j] by {
        lemma_text_lt_total(members[i], members[j]);
        assert(text_lt(members[i], members[j]));
    }
    let names = Seq::new(keys.len(), |i: int| hex_lower(keys[i]));
    assert forall|member: Seq<char>| members.to_set().contains(
        member,
    ) implies names.to_set().contains(member) by {
        assert(members.contains(member));
        let owner = choose|owner: Seq<u8>| #[trigger]
            keys.contains(owner) && member == hex_lower(owner);
        let i = choose|i: int| 0 <= i < keys.len() && keys[i] == owner;
        assert(names[i] == member);
    }
    members.unique_seq_to_set();
    names.lemma_cardinality_of_set();
    vstd::seq_lib::seq_to_set_is_finite(names);
    vstd::set_lib::lemma_len_subset(members.to_set(), names.to_set());
}

/// A group can be made exactly if it has a name beside white space and a member beside us; its
/// title is the beginning of that name, at most 128 characters of it.
pub proof fn law_groups_need_a_name_and_a_member(
    title: Seq<char>,
    members: Seq<Seq<u8>>,
    ours: Seq<u8>,
)
    ensures
        ({
            let others = exists|i: int| 0 <= i < members.len() && #[trigger] members[i] != ours;
            &&& group_fault(title, members, ours) is None <==> trimmed(title).len() > 0 && others
            &&& group_fault(title, members, ours) == Some(GroupError::EmptyName) <==> trimmed(
                title,
            ).len() == 0
            &&& group_fault(title, members, ours) == Some(GroupError::NoOtherMember) <==> trimmed(
                title,
            ).len() > 0 && !others
        }),
        group_title(title).is_prefix_of(trimmed(title)),
        trimmed(title).len() <= 128 ==> group_title(title) == trimmed(title),
        trimmed(title).len() > 128 ==> group_title(title).len() == 128,
{
}

} // verus!
