//! Contacts: who is known by which name, and how peers are shown.
use vstd::prelude::*;
use crate::digits::{decimal, hex_lower, is_hex_digit, lemma_hex_lower_digits, push_decimal};
use crate::node::{parsed_key, short_form, NodeId};
use crate::sort::{
    arranged, law_arranging_keeps_everything, law_order_is_stable, sort_order, stable_order,
};
use crate::text::{
    chars_of, leading_white, lemma_held_after_push, lemma_held_or_last, lemma_text_lt_total,
    same_text, text_lt, texts, trailing_white, trim, trimmed,
};

verus! {

/// A contact as it is stored.
#[derive(Debug)]
pub struct Friend {
    pub name: String,
    pub node_id: String,
}

/// The contents of a `Friend`.
pub struct FriendView {
    pub name: Seq<char>,
    pub node_id: Seq<char>,
}

impl View for Friend {
    type V = FriendView;

    open spec fn view(&self) -> FriendView {
        FriendView { name: self.name@, node_id: self.node_id@ }
    }
}

impl Clone for Friend {
    fn clone(&self) -> (r: Self)
        ensures
            r@ == self@,
    {
        Friend { name: self.name.clone(), node_id: self.node_id.clone() }
    }
}

/// The contents of a list of contacts.
pub open spec fn friend_views(v: Seq<Friend>) -> Seq<FriendView> {
    Seq::new(v.len(), |i: int| v[i]@)
}

// ---------------------------------------------------------------------------
// Letters
// ---------------------------------------------------------------------------

/// What `char::is_alphanumeric` says of a character.
pub uninterp spec fn is_alphanumeric_char(c: char) -> bool;

/// `char::is_alphanumeric`. The contract claims that the answer depends on the character alone.
#[verifier::external_body]
fn alphanumeric(c: char) -> (b: bool)
    ensures
        b == is_alphanumeric_char(c),
{
    c.is_alphanumeric()
}

/// The characters that `char::to_uppercase` gives for a character.
pub uninterp spec fn uppercase_of(c: char) -> Seq<char>;

/// `char::to_uppercase`, its characters collected in a string. The contract claims that they
/// depend on the character alone.
#[verifier::external_body]
fn uppercase(c: char) -> (s: String)
    ensures
        s@ == uppercase_of(c),
{
    c.to_uppercase().to_string()
}

/// The first letter or digit of a text.
pub open spec fn first_alphanumeric(s: Seq<char>) -> Option<char>
    decreases s.len(),
{
    if s.len() == 0 {
        None
    } else if is_alphanumeric_char(s[0]) {
        Some(s[0])
    } else {
        first_alphanumeric(s.drop_first())
    }
}

fn find_alphanumeric(s: &str) -> (r: Option<char>)
    ensures
        r == first_alphanumeric(s@),
{
    let v = chars_of(s);
    let mut i: usize = 0;
    assert(v@.skip(0) =~= v@);
    while i < v.len()
        invariant
            0 <= i <= v@.len(),
            v@ == s@,
            first_alphanumeric(s@) == first_alphanumeric(v@.skip(i as int)),
        decreases v@.len() - i,
    {
        let c: char = v[i];
        assert(v@.skip(i as int).drop_first() =~= v@.skip(i as int + 1));
        if alphanumeric(c) {
            return Some(c);
        }
        i += 1;
    }
    None
}

/// The letter that stands for a name: its first letter or digit, in upper case, or a question
/// mark.
pub open spec fn initial_of(name: Seq<char>) -> Seq<char> {
    match first_alphanumeric(name) {
        Some(c) => uppercase_of(c),
        None => "?"@,
    }
}

/// The letter that stands for a name.
pub fn name_initial(name: &str) -> (s: String)
    ensures
        s@ == initial_of(name@),
{
    match find_alphanumeric(name) {
        Some(c) => uppercase(c),
        None => "?".to_owned(),
    }
}

/// The letter that stands for the title of a conversation.
pub open spec fn title_initial_of(title: Seq<char>) -> Seq<char> {
    uppercase_of(
        if title.len() == 0 {
            '#'
        } else {
            title[0]
        },
    )
}

/// The letter that stands for the title of a conversation: its first character, whatever it is.
pub fn title_initial(title: &str) -> (s: String)
    ensures
        s@ == title_initial_of(title@),
{
    let v = chars_of(title);
    if v.len() == 0 {
        uppercase('#')
    } else {
        uppercase(v[0])
    }
}

/// A character with an ASCII capital made small.
pub open spec fn lower_char(c: char) -> char {
    if 'A' <= c && c <= 'Z' {
        (c as int + 32) as char
    } else {
        c
    }
}

/// A text with its ASCII capitals made small.
pub open spec fn lower_ascii(s: Seq<char>) -> Seq<char> {
    Seq::new(s.len(), |i: int| lower_char(s[i]))
}

/// Makes the ASCII capitals of a text small.
pub fn to_lower_ascii(s: &str) -> (r: String)
    ensures
        r@ == lower_ascii(s@),
{
    let v = chars_of(s);
    let mut r: String = String::new();
    let mut i: usize = 0;
    while i < v.len()
        invariant
            0 <= i <= v@.len(),
            v@ == s@,
            r@.len() == i,
            forall|j: int| 0 <= j < i ==> r@[j] == lower_char(s@[j]),
        decreases v@.len() - i,
    {
        let c: char = v[i];
        if 'A' <= c && c <= 'Z' {
            let small: u8 = c as u8 + 32;
            r.push(small as char);
        } else {
            r.push(c);
        }
        i += 1;
    }
    assert(r@ =~= lower_ascii(s@));
    r
}

// ---------------------------------------------------------------------------
// Names
// ---------------------------------------------------------------------------

/// Whether a contact stands for a peer.
pub open spec fn stands_for(friend: FriendView, key: Seq<u8>) -> bool {
    trimmed(friend.node_id) == hex_lower(key)
}

/// The first contact that stands for a peer, or the count of contacts.
pub open spec fn contact_index(friends: Seq<FriendView>, key: Seq<u8>) -> nat
    decreases friends.len(),
{
    if friends.len() == 0 {
        0
    } else if stands_for(friends[0], key) {
        0
    } else {
        1 + contact_index(friends.drop_first(), key)
    }
}

/// Whether a peer is a contact.
pub open spec fn is_contact(friends: Seq<FriendView>, key: Seq<u8>) -> bool {
    exists|i: int| 0 <= i < friends.len() && stands_for(#[trigger] friends[i], key)
}

/// The name that a contact goes by: none where it is blank or only repeats the key.
pub open spec fn given_name(friend: FriendView) -> Option<Seq<char>> {
    let name = trimmed(friend.name);
    if name.len() > 0 && name != trimmed(friend.node_id) {
        Some(name)
    } else {
        None
    }
}

/// The name that a peer goes by.
pub open spec fn name_of(friends: Seq<FriendView>, key: Seq<u8>) -> Option<Seq<char>> {
    let at = contact_index(friends, key) as int;
    if at < friends.len() {
        given_name(friends[at])
    } else {
        None
    }
}

/// How a peer without a name is shown.
pub open spec fn peer_label(key: Seq<u8>) -> Seq<char> {
    "Peer "@ + short_form(key)
}

/// How a peer is shown.
pub open spec fn display_name_of(friends: Seq<FriendView>, key: Seq<u8>) -> Seq<char> {
    match name_of(friends, key) {
        Some(name) => name,
        None => peer_label(key),
    }
}

/// The letter that stands for a peer: that of its name, or the first digit of its key.
pub open spec fn peer_initial_of(friends: Seq<FriendView>, key: Seq<u8>) -> Seq<char> {
    match name_of(friends, key) {
        Some(name) => match first_alphanumeric(name) {
            Some(c) => uppercase_of(c),
            None => uppercase_of(short_form(key)[0]),
        },
        None => uppercase_of(short_form(key)[0]),
    }
}

proof fn lemma_contact_index(friends: Seq<FriendView>, key: Seq<u8>, n: int)
    requires
        0 <= n <= friends.len(),
        forall|j: int| 0 <= j < n ==> !stands_for(#[trigger] friends[j], key),
        n < friends.len() ==> stands_for(friends[n], key),
    ensures
        contact_index(friends, key) == n,
    decreases friends.len(),
{
    if friends.len() > 0 && n > 0 {
        let rest = friends.drop_first();
        assert(!stands_for(friends[0], key));
        assert forall|j: int| 0 <= j < n - 1 implies !stands_for(#[trigger] rest[j], key) by {
            assert(rest[j] == friends[j + 1]);
        }
        if n < friends.len() {
            assert(rest[n - 1] == friends[n]);
        }
        lemma_contact_index(rest, key, n - 1);
    }
}

/// The text that labels a peer without a name.
pub fn label_peer(node: &NodeId) -> (s: String)
    ensures
        s@ == peer_label(node@),
{
    let mut s: String = "Peer ".to_owned();
    s.append(node.fmt_short().as_str());
    s
}

/// What became of a contact that was to be added.
#[derive(Clone, Copy, Debug, PartialEq, Eq, Structural)]
pub enum AddFriend {
    /// The key was missing or could not be read: what was typed in stays.
    Ignored,
    /// The peer is a contact already.
    Known,
    Added,
}

/// The name of a contact that none was typed in for.
pub open spec fn typed_name(name: Seq<char>) -> Seq<char> {
    if trimmed(name).len() == 0 {
        "Unnamed contact"@
    } else {
        trimmed(name)
    }
}

/// The names of contacts.
pub open spec fn names_of(friends: Seq<FriendView>) -> Seq<Seq<char>> {
    Seq::new(friends.len(), |i: int| friends[i].name)
}

/// Contacts in the order of their names; equal names stand as they came.
pub open spec fn by_name(friends: Seq<FriendView>) -> Seq<FriendView> {
    arranged(friends, names_of(friends))
}

/// Contacts with a peer of a development call added, unless one with that key is there.
pub open spec fn with_fixture(friends: Seq<FriendView>, key: Seq<u8>) -> Seq<FriendView> {
    if exists|i: int| 0 <= i < friends.len() && (#[trigger] friends[i]).node_id == hex_lower(key) {
        friends
    } else {
        friends.push(
            FriendView { name: "DEV "@ + short_form(key), node_id: hex_lower(key) },
        )
    }
}

/// Contacts with the peers of a development call added.
pub open spec fn with_fixtures(friends: Seq<FriendView>, keys: Seq<Seq<u8>>) -> Seq<FriendView>
    decreases keys.len(),
{
    if keys.len() == 0 {
        friends
    } else {
        with_fixture(with_fixtures(friends, keys.drop_last()), keys.last())
    }
}

/// The contacts.
#[derive(Debug)]
pub struct Contacts {
    pub friends: Vec<Friend>,
}

impl View for Contacts {
    type V = Seq<FriendView>;

    open spec fn view(&self) -> Seq<FriendView> {
        friend_views(self.friends@)
    }
}

/// Which of the stored contacts count: those of the current file, however few; else those of the
/// former place, which are then to be stored anew.
pub open spec fn chosen_friends(
    current: Option<Seq<FriendView>>,
    former: Option<Seq<FriendView>>,
) -> (Seq<FriendView>, bool) {
    match current {
        Some(list) => (list, false),
        None => match former {
            Some(list) => (list, list.len() > 0),
            None => (Seq::empty(), false),
        },
    }
}

/// The contents of an optional list of contacts.
pub open spec fn opt_friends(v: Option<Vec<Friend>>) -> Option<Seq<FriendView>> {
    match v {
        Some(list) => Some(friend_views(list@)),
        None => None,
    }
}

impl Contacts {
    /// Picks the stored contacts, and says whether they are to be stored anew. An empty current
    /// file is meant: it does not bring back what stood in the former place.
    pub fn load(current: Option<Vec<Friend>>, former: Option<Vec<Friend>>) -> (r: (Contacts, bool))
        ensures
            (r.0@, r.1) == chosen_friends(opt_friends(current), opt_friends(former)),
    {
        match current {
            Some(friends) => (Contacts { friends }, false),
            None => match former {
                Some(friends) => {
                    let store = friends.len() > 0;
                    (Contacts { friends }, store)
                },
                None => {
                    let c = Contacts { friends: Vec::new() };
                    assert(c@ =~= Seq::empty());
                    (c, false)
                },
            },
        }
    }

    fn find(&self, node: &NodeId) -> (r: usize)
        ensures
            r == contact_index(self@, node@),
            r <= self.friends@.len(),
            r < self.friends@.len() <==> is_contact(self@, node@),
    {
        let id = node.to_text();
        let mut i: usize = 0;
        while i < self.friends.len()
            invariant
                0 <= i <= self.friends@.len(),
                id@ == hex_lower(node@),
                forall|j: int| 0 <= j < i ==> !stands_for(#[trigger] self@[j], node@),
            decreases self.friends@.len() - i,
        {
            let key = trim(self.friends[i].node_id.as_str());
            if same_text(key.as_str(), id.as_str()) {
                proof {
                    assert(stands_for(self@[i as int], node@));
                    lemma_contact_index(self@, node@, i as int);
                }
                return i;
            }
            assert(!stands_for(self@[i as int], node@));
            i += 1;
        }
        proof {
            lemma_contact_index(self@, node@, i as int);
        }
        i
    }

    /// The name that a peer goes by.
    pub fn friend_name(&self, node: &NodeId) -> (r: Option<String>)
        ensures
            match r {
                Some(name) => name_of(self@, node@) == Some(name@),
                None => name_of(self@, node@) is None,
            },
    {
        let at = self.find(node);
        if at >= self.friends.len() {
            return None;
        }
        let name = trim(self.friends[at].name.as_str());
        let id = trim(self.friends[at].node_id.as_str());
        assert(self@[at as int] == self.friends@[at as int]@);
        if name.as_str().unicode_len() > 0 && !same_text(name.as_str(), id.as_str()) {
            Some(name)
        } else {
            None
        }
    }

    /// Whether a peer is a contact.
    pub fn is_friend(&self, node: &NodeId) -> (r: bool)
        ensures
            r == is_contact(self@, node@),
    {
        self.find(node) < self.friends.len()
    }

    /// How a peer is shown.
    pub fn peer_display_name(&self, node: &NodeId) -> (s: String)
        ensures
            s@ == display_name_of(self@, node@),
    {
        match self.friend_name(node) {
            Some(name) => name,
            None => label_peer(node),
        }
    }

    /// The letter that stands for a peer.
    pub fn peer_initial(&self, node: &NodeId) -> (s: String)
        ensures
            s@ == peer_initial_of(self@, node@),
    {
        match self.friend_name(node) {
            Some(name) => match find_alphanumeric(name.as_str()) {
                Some(c) => {
                    return uppercase(c);
                },
                None => {},
            },
            None => {},
        }
        let short = node.fmt_short();
        let v = chars_of(short.as_str());
        proof {
            NodeId::lemma_length(*node);
        }
        uppercase(v[0])
    }

    fn sort(&mut self)
        ensures
            final(self)@ == by_name(old(self)@),
    {
        let ghost before = self@;
        let mut names: Vec<String> = Vec::new();
        let mut i: usize = 0;
        while i < self.friends.len()
            invariant
                0 <= i <= self.friends@.len(),
                before == self@,
                names@.len() == i,
                forall|j: int| 0 <= j < i ==> (#[trigger] names@[j])@ == before[j].name,
            decreases self.friends@.len() - i,
        {
            names.push(self.friends[i].name.clone());
            i += 1;
        }
        assert(texts(names@) =~= names_of(before));
        let order = sort_order(&names);
        let mut sorted: Vec<Friend> = Vec::new();
        let mut k: usize = 0;
        while k < order.len()
            invariant
                0 <= k <= order@.len(),
                before == self@,
                order@.len() == before.len(),
                self.friends@.len() == before.len(),
                forall|i: int| 0 <= i < order@.len() ==> order@[i] < before.len(),
                sorted@.len() == k,
                forall|j: int|
                    0 <= j < k ==> (#[trigger] sorted@[j])@ == before[order@[j] as int],
            decreases order@.len() - k,
        {
            sorted.push(self.friends[order[k]].clone());
            k += 1;
        }
        self.friends = sorted;
        proof {
            let o = order@.map_values(|k: usize| k as int);
            assert(o == stable_order(names_of(before)));
            assert forall|j: int| 0 <= j < before.len() implies self@[j] == by_name(before)[j] by {
                assert(o[j] == order@[j] as int);
            }
            assert(self@ =~= by_name(before));
        }
    }

    /// Adds a contact under a name, unless the peer is one already.
    pub fn add_friend_record(&mut self, node: &NodeId, name: String) -> (added: bool)
        ensures
            added == !is_contact(old(self)@, node@),
            final(self)@ == if is_contact(old(self)@, node@) {
                old(self)@
            } else {
                by_name(old(self)@.push(FriendView { name: name@, node_id: hex_lower(node@) }))
            },
    {
        if self.is_friend(node) {
            return false;
        }
        let ghost before = self@;
        self.friends.push(Friend { name, node_id: node.to_text() });
        assert(self@ =~= before.push(FriendView { name: name@, node_id: hex_lower(node@) }));
        self.sort();
        true
    }

    /// Adds the contact that was typed in.
    pub fn add_friend(&mut self, node_id: &str, name: &str) -> (r: AddFriend)
        ensures
            r == match parsed_key(trimmed(node_id@)) {
                Ok(key) => if trimmed(node_id@).len() == 0 {
                    AddFriend::Ignored
                } else if is_contact(old(self)@, key) {
                    AddFriend::Known
                } else {
                    AddFriend::Added
                },
                Err(_) => AddFriend::Ignored,
            },
            final(self)@ == if r == AddFriend::Added {
                by_name(
                    old(self)@.push(
                        FriendView {
                            name: typed_name(name@),
                            node_id: hex_lower(parsed_key(trimmed(node_id@))->Ok_0),
                        },
                    ),
                )
            } else {
                old(self)@
            },
    {
        let id = trim(node_id);
        if id.as_str().unicode_len() == 0 {
            return AddFriend::Ignored;
        }
        match NodeId::parse(id.as_str()) {
            Ok(node) => {
                let given = trim(name);
                let given = if given.as_str().unicode_len() == 0 {
                    "Unnamed contact".to_owned()
                } else {
                    given
                };
                if self.add_friend_record(&node, given) {
                    AddFriend::Added
                } else {
                    AddFriend::Known
                }
            },
            Err(_) => AddFriend::Ignored,
        }
    }

    /// Adds the peers of a development call; says whether there was a new one.
    pub fn add_fixture_peers(&mut self, peers: &Vec<NodeId>) -> (changed: bool)
        ensures
            ({
                let all = with_fixtures(old(self)@, crate::node::keys_of(peers@));
                &&& changed == (all.len() > old(self)@.len())
                &&& final(self)@ == if changed {
                    by_name(all)
                } else {
                    old(self)@
                }
            }),
    {
        let ghost before = self@;
        let ghost keys = crate::node::keys_of(peers@);
        let mut changed: bool = false;
        let mut i: usize = 0;
        assert(keys.take(0) =~= Seq::empty());
        while i < peers.len()
            invariant
                0 <= i <= peers@.len(),
                keys == crate::node::keys_of(peers@),
                self@ == with_fixtures(before, keys.take(i as int)),
                self@.len() >= before.len(),
                changed == (self@.len() > before.len()),
                !changed ==> self@ == before,
            decreases peers@.len() - i,
        {
            let ghost now = self@;
            let id = peers[i].to_text();
            let mut known: bool = false;
            let mut j: usize = 0;
            while j < self.friends.len() && !known
                invariant
                    0 <= j <= self.friends@.len(),
                    now == self@,
                    i < peers@.len(),
                    id@ == hex_lower(peers@[i as int]@),
                    forall|k: int| 0 <= k < j ==> known || (#[trigger] now[k]).node_id != id@,
                    known ==> exists|k: int| 0 <= k < now.len() && (#[trigger] now[k]).node_id == id@,
                decreases self.friends@.len() - j,
            {
                if same_text(self.friends[j].node_id.as_str(), id.as_str()) {
                    assert(now[j as int].node_id == id@);
                    known = true;
                }
                j += 1;
            }
            assert(keys.take(i as int + 1).drop_last() =~= keys.take(i as int));
            if !known {
                let mut name: String = "DEV ".to_owned();
                name.append(peers[i].fmt_short().as_str());
                self.friends.push(Friend { name, node_id: id });
                assert(self@ =~= now.push(
                    FriendView {
                        name: "DEV "@ + short_form(keys[i as int]),
                        node_id: hex_lower(keys[i as int]),
                    },
                ));
                changed = true;
            }
            assert(self@ == with_fixture(now, keys[i as int]));
            i += 1;
        }
        assert(keys.take(keys.len() as int) =~= keys);
        if changed {
            self.sort();
        }
        changed
    }

    /// Takes a contact out; gives the peer whose state is then forgotten, where its key can be
    /// read.
    pub fn remove_friend(&mut self, index: usize) -> (peer: Option<NodeId>)
        requires
            index < old(self)@.len(),
        ensures
            final(self)@ == old(self)@.remove(index as int),
            match peer {
                Some(node) => parsed_key(trimmed(old(self)@[index as int].node_id)) == Ok::<
                    Seq<u8>,
                    Seq<char>,
                >(node@),
                None => parsed_key(trimmed(old(self)@[index as int].node_id)) is Err,
            },
    {
        let ghost before = self@;
        let friend = self.friends.remove(index);
        assert(self@ =~= before.remove(index as int));
        assert(before[index as int] == friend@);
        match NodeId::parse(trim(friend.node_id.as_str()).as_str()) {
            Ok(node) => Some(node),
            Err(_) => None,
        }
    }
}

/// Contacts stand in the order of their names, and none is lost.
pub proof fn law_contacts_are_kept(friends: Seq<FriendView>, i: int)
    requires
        0 <= i < friends.len(),
    ensures
        by_name(friends).len() == friends.len(),
        by_name(friends).contains(friends[i]),
        forall|a: int, b: int|
            0 <= a < b < friends.len() ==> !text_lt(
                (#[trigger] by_name(friends)[b]).name,
                (#[trigger] by_name(friends)[a]).name,
            ),
{
    let names = names_of(friends);
    law_order_is_stable(names, friends.len());
    let order = stable_order(names);
    assert(order.contains(i));
    let k = choose|k: int| 0 <= k < order.len() && order[k] == i;
    assert(by_name(friends)[k] == friends[i]);
    assert forall|a: int, b: int| 0 <= a < b < friends.len() implies !text_lt(
        (#[trigger] by_name(friends)[b]).name,
        (#[trigger] by_name(friends)[a]).name,
    ) by {
        assert(0 <= order[a] < friends.len() && 0 <= order[b] < friends.len());
        lemma_text_lt_total(names[order[a]], names[order[b]]);
    }
}

/// No digits of a key are trimmed away.
pub proof fn lemma_digits_stay(key: Seq<u8>)
    ensures
        trimmed(hex_lower(key)) == hex_lower(key),
{
    let s = hex_lower(key);
    lemma_hex_lower_digits(key);
    if s.len() > 0 {
        assert(is_hex_digit(s[0]));
        assert(is_hex_digit(s[s.len() - 1]));
        assert(leading_white(s) == 0);
        assert(s.skip(0) =~= s);
        assert(trailing_white(s) == 0);
        assert(s.take(s.len() as int) =~= s);
    } else {
        assert(trimmed(s) =~= s);
    }
}

/// A peer that was added is a contact.
pub proof fn law_added_peer_is_a_contact(friends: Seq<FriendView>, name: Seq<char>, key: Seq<u8>)
    ensures
        is_contact(by_name(friends.push(FriendView { name, node_id: hex_lower(key) })), key),
{
    let all = friends.push(FriendView { name, node_id: hex_lower(key) });
    law_contacts_are_kept(all, friends.len() as int);
    lemma_digits_stay(key);
    let sorted = by_name(all);
    let added = all[friends.len() as int];
    let k = choose|k: int| 0 <= k < sorted.len() && sorted[k] == added;
    assert(stands_for(sorted[k], key));
}

/// How the count of contacts is shown.
pub fn contact_count(count: usize) -> (s: String)
    ensures
        s@ == if count == 0 {
            "no contacts"@
        } else if count == 1 {
            "1 contact"@
        } else {
            decimal(count as nat) + " contacts"@
        },
{
    if count == 0 {
        "no contacts".to_owned()
    } else if count == 1 {
        "1 contact".to_owned()
    } else {
        let mut s: String = String::new();
        push_decimal(&mut s, count as u64);
        s.append(" contacts");
        assert(s@ =~= decimal(count as nat) + " contacts"@);
        s
    }
}

proof fn lemma_first_contact(friends: Seq<FriendView>, key: Seq<u8>)
    ensures
        contact_index(friends, key) <= friends.len(),
        contact_index(friends, key) < friends.len() ==> stands_for(
            friends[contact_index(friends, key) as int],
            key,
        ),
        forall|i: int|
            0 <= i < contact_index(friends, key) ==> !stands_for(#[trigger] friends[i], key),
    decreases friends.len(),
{
    if friends.len() > 0 && !stands_for(friends[0], key) {
        let rest = friends.drop_first();
        lemma_first_contact(rest, key);
        assert forall|i: int| 0 <= i < contact_index(friends, key) implies !stands_for(
            #[trigger] friends[i],
            key,
        ) by {
            if i > 0 {
                assert(rest[i - 1] == friends[i]);
            }
        }
    }
}

/// A peer that is no contact, or whose contact has no name of its own, is shown by its short
/// key; a contact by its name, without the white space around it.
pub proof fn law_peers_go_by_their_names(friends: Seq<FriendView>, key: Seq<u8>, i: int)
    ensures
        (forall|j: int| 0 <= j < friends.len() ==> trimmed((#[trigger] friends[j]).node_id)
            != hex_lower(key)) ==> display_name_of(friends, key) == "Peer "@ + short_form(key),
        0 <= i < friends.len() && trimmed(friends[i].node_id) == hex_lower(key) && (forall|j: int|
            0 <= j < i ==> trimmed((#[trigger] friends[j]).node_id) != hex_lower(key)) && trimmed(
            friends[i].name,
        ).len() > 0 && trimmed(friends[i].name) != hex_lower(key) ==> display_name_of(friends, key)
            == trimmed(friends[i].name),
        0 <= i < friends.len() && trimmed(friends[i].node_id) == hex_lower(key) && (forall|j: int|
            0 <= j < i ==> trimmed((#[trigger] friends[j]).node_id) != hex_lower(key)) && (trimmed(
            friends[i].name,
        ).len() == 0 || trimmed(friends[i].name) == hex_lower(key)) ==> display_name_of(
            friends,
            key,
        ) == "Peer "@ + short_form(key),
{
    lemma_first_contact(friends, key);
    let at = contact_index(friends, key) as int;
    if 0 <= i < friends.len() && trimmed(friends[i].node_id) == hex_lower(key) && (forall|j: int|
        0 <= j < i ==> trimmed((#[trigger] friends[j]).node_id) != hex_lower(key)) {
        assert(stands_for(friends[i], key));
        assert(at <= i);
        assert(trimmed(friends[at].node_id) == hex_lower(key));
    }
}

/// A peer that was added under a name goes by it from then on, and the other contacts stay.
pub proof fn law_added_peer_goes_by_its_name(
    friends: Seq<FriendView>,
    name: Seq<char>,
    key: Seq<u8>,
    other: FriendView,
)
    requires
        !is_contact(friends, key),
        trimmed(name).len() > 0,
        trimmed(name) != hex_lower(key),
    ensures
        ({
            let after = by_name(friends.push(FriendView { name, node_id: hex_lower(key) }));
            &&& display_name_of(after, key) == trimmed(name)
            &&& after.len() == friends.len() + 1
            &&& friends.contains(other) ==> after.contains(other)
        }),
{
    let added = FriendView { name, node_id: hex_lower(key) };
    let all = friends.push(added);
    let after = by_name(all);
    lemma_digits_stay(key);
    law_added_peer_is_a_contact(friends, name, key);
    lemma_first_contact(after, key);
    let at = contact_index(after, key) as int;
    let k = choose|k: int| 0 <= k < after.len() && stands_for(#[trigger] after[k], key);
    assert(at <= k);
    assert(after.contains(after[at]));
    law_arranging_keeps_everything(all, names_of(all), after[at]);
    lemma_held_after_push(friends, added, after[at]);
    if friends.contains(after[at]) {
        let i = choose|i: int| 0 <= i < friends.len() && friends[i] == after[at];
        assert(stands_for(friends[i], key));
    }
    assert(after[at] == added);
    law_arranging_keeps_everything(all, names_of(all), other);
    lemma_held_after_push(friends, added, other);
}

/// The contacts of the current file count, also where it has none; those of the former place
/// only where there is no current file, and are then stored anew.
pub proof fn law_current_contacts_count(list: Seq<FriendView>, former: Option<Seq<FriendView>>)
    ensures
        chosen_friends(Some(list), former) == (list, false),
        chosen_friends(None, Some(list)).0 == list,
        chosen_friends(None, Some(list)).1 <==> list.len() > 0,
        chosen_friends(None, None).0.len() == 0,
        !chosen_friends(None, None).1,
{
}

/// The peers of a development call are all contacts afterwards, and the contacts before them
/// stay.
pub proof fn law_fixture_peers_become_contacts(
    friends: Seq<FriendView>,
    keys: Seq<Seq<u8>>,
    key: Seq<u8>,
)
    ensures
        friends.is_prefix_of(with_fixtures(friends, keys)),
        keys.contains(key) ==> is_contact(with_fixtures(friends, keys), key),
        with_fixtures(friends, keys).len() <= friends.len() + keys.len(),
    decreases keys.len(),
{
    if keys.len() > 0 {
        let before = with_fixtures(friends, keys.drop_last());
        let after = with_fixtures(friends, keys);
        law_fixture_peers_become_contacts(friends, keys.drop_last(), key);
        lemma_held_or_last(keys, key);
        lemma_digits_stay(key);
        if is_contact(before, key) {
            let i = choose|i: int| 0 <= i < before.len() && stands_for(#[trigger] before[i], key);
            assert(after[i] == before[i]);
        }
        if keys.last() == key {
            if after == before {
                let i = choose|i: int|
                    0 <= i < before.len() && (#[trigger] before[i]).node_id == hex_lower(key);
                assert(stands_for(after[i], key));
            } else {
                assert(stands_for(after[after.len() - 1], key));
            }
        }
    }
}

proof fn lemma_first_alphanumeric(name: Seq<char>, k: int)
    requires
        0 <= k <= name.len(),
        forall|j: int| 0 <= j < k ==> !is_alphanumeric_char(#[trigger] name[j]),
        k < name.len() ==> is_alphanumeric_char(name[k]),
    ensures
        first_alphanumeric(name) == if k < name.len() {
            Some(name[k])
        } else {
            None
        },
    decreases name.len(),
{
    if k > 0 {
        let rest = name.drop_first();
        assert(!is_alphanumeric_char(name[0]));
        assert forall|j: int| 0 <= j < k - 1 implies !is_alphanumeric_char(#[trigger] rest[j]) by {
            assert(rest[j] == name[j + 1]);
        }
        lemma_first_alphanumeric(rest, k - 1);
    }
}

/// A name is shown by its first letter or digit in upper case, and by a question mark where it
/// has none.
pub proof fn law_names_are_shown_by_their_first_letter(name: Seq<char>, k: int)
    requires
        0 <= k <= name.len(),
        forall|j: int| 0 <= j < k ==> !is_alphanumeric_char(#[trigger] name[j]),
        k < name.len() ==> is_alphanumeric_char(name[k]),
    ensures
        k < name.len() ==> initial_of(name) == uppercase_of(name[k]),
        k == name.len() ==> initial_of(name) == "?"@,
{
    lemma_first_alphanumeric(name, k);
}

/// The ASCII capitals of a text are made small; all else stays.
pub proof fn law_capitals_are_made_small(s: Seq<char>, i: int)
    requires
        0 <= i < s.len(),
    ensures
        lower_ascii(s).len() == s.len(),
        65 <= s[i] as int <= 90 ==> lower_ascii(s)[i] as int == s[i] as int + 32,
        !(65 <= s[i] as int <= 90) ==> lower_ascii(s)[i] == s[i],
{
}

} // verus!
