//! Calls of groups: what peers report of them, and which one we are in.
use vstd::prelude::*;
use crate::client_status::{call_views, Availability, CallView, GroupCallAnnouncement};
use crate::conversation::{ascending, ChatConversation};
use crate::digits::{hex_lower, push_signed, signed_decimal};
use crate::node::{keys_of, parsed_key, short_form, NodeId};
use crate::roster::{names_key, opt_key};
use crate::table::{Table, TableKey};
use crate::text::{
    lemma_held_after_push, lemma_held_or_last, lemma_text_lt_total, list_has, same_text, text_lt,
    texts,
};

verus! {

/// How long it is remembered that a call was seen: seven days.
pub const SEEN_GROUP_CALL_RETENTION_MS: i64 = 604_800_000;

/// How long a missed call is shown: one day.
pub const MISSED_CALL_MS: i64 = 86_400_000;

/// What is known of the calls of groups.
pub struct GroupCalls {
    /// What each peer reports.
    pub reports: Table<NodeId, Vec<GroupCallAnnouncement>>,
    /// The call that we are in.
    pub local: Option<GroupCallAnnouncement>,
    /// The calls that we have seen, and when.
    pub seen: Table<String, i64>,
    /// Whether peers are online, as far as they have said.
    pub status: Table<NodeId, Availability>,
}

/// The contents of an optional call.
pub open spec fn opt_call(call: Option<GroupCallAnnouncement>) -> Option<CallView> {
    match call {
        Some(call) => Some(call@),
        None => None,
    }
}

/// All calls that peers report.
pub open spec fn reported(entries: Seq<(NodeId, Vec<GroupCallAnnouncement>)>) -> Seq<CallView>
    decreases entries.len(),
{
    if entries.len() == 0 {
        Seq::empty()
    } else {
        reported(entries.drop_last()) + call_views(entries.last().1@)
    }
}

/// All calls that are known: the one that we are in first.
pub open spec fn known_calls(
    local: Option<CallView>,
    entries: Seq<(NodeId, Vec<GroupCallAnnouncement>)>,
) -> Seq<CallView> {
    (match local {
        Some(call) => seq![call],
        None => Seq::empty(),
    }) + reported(entries)
}

/// Whether a call of this conversation goes on.
pub open spec fn goes_on(call: CallView, conversation: Seq<char>) -> bool {
    call.conversation_id == conversation && call.ended_at_ms is None
}

/// The call of a conversation that goes on and began last; the later in the list of two that
/// began together.
pub open spec fn latest_call(calls: Seq<CallView>, conversation: Seq<char>) -> Option<CallView>
    decreases calls.len(),
{
    if calls.len() == 0 {
        None
    } else {
        let before = latest_call(calls.drop_last(), conversation);
        let last = calls.last();
        if goes_on(last, conversation) && (before is None || last.started_at_ms
            >= before->0.started_at_ms) {
            Some(last)
        } else {
            before
        }
    }
}

/// Whether somebody lists this participant of a call.
pub open spec fn takes_part(calls: Seq<CallView>, call_id: Seq<char>, who: Seq<char>) -> bool {
    exists|i: int|
        0 <= i < calls.len() && (#[trigger] calls[i]).call_id == call_id
            && calls[i].participants.contains(who)
}

/// What is still remembered of the calls that were seen.
pub open spec fn recent(seen: Map<Seq<char>, i64>, now: int) -> Map<Seq<char>, i64> {
    Map::new(
        |id: Seq<char>| seen.contains_key(id) && seen[id] >= now - SEEN_GROUP_CALL_RETENTION_MS,
        |id: Seq<char>| seen[id],
    )
}

/// What is remembered once a call was seen.
pub open spec fn with_seen(seen: Map<Seq<char>, i64>, id: Seq<char>, now: i64) -> Map<
    Seq<char>,
    i64,
> {
    recent(seen.insert(id, now), now as int)
}

/// Whether a report is of a call of this conversation that has ended.
pub open spec fn has_ended(call: CallView, conversation: Seq<char>) -> bool {
    call.conversation_id == conversation && call.ended_at_ms is Some
}

/// Whether a call was missed: it has ended within a day, we did not see it and took no part.
pub open spec fn is_missed(
    call: CallView,
    conversation: Seq<char>,
    seen: Map<Seq<char>, i64>,
    ours: Option<Seq<u8>>,
    now: int,
) -> bool {
    &&& has_ended(call, conversation)
    &&& !seen.contains_key(call.call_id)
    &&& ours is Some ==> !call.participants.contains(hex_lower(ours->0))
    &&& now - call.ended_at_ms->0 < MISSED_CALL_MS
}

/// Whether a call of this conversation was missed.
pub open spec fn missed_one(
    calls: Seq<CallView>,
    conversation: Seq<char>,
    seen: Map<Seq<char>, i64>,
    ours: Option<Seq<u8>>,
    now: int,
) -> bool {
    exists|i: int|
        0 <= i < calls.len() && is_missed(#[trigger] calls[i], conversation, seen, ours, now)
}

/// The peers among members, without ourselves, in the order of the members.
pub open spec fn listed_peers(members: Seq<Seq<char>>, ours: Option<Seq<u8>>) -> Seq<Seq<u8>>
    decreases members.len(),
{
    if members.len() == 0 {
        Seq::empty()
    } else {
        let rest = listed_peers(members.drop_last(), ours);
        match parsed_key(members.last()) {
            Ok(key) => if ours == Some(key) {
                rest
            } else {
                rest.push(key)
            },
            Err(_) => rest,
        }
    }
}

/// The peers among members, without ourselves.
pub fn peers_of_members(members: &Vec<String>, ours: &Option<NodeId>) -> (peers: Vec<NodeId>)
    ensures
        keys_of(peers@) == listed_peers(texts(members@), opt_key(*ours)),
{
    let ghost all = texts(members@);
    let mut peers: Vec<NodeId> = Vec::new();
    let mut i: usize = 0;
    proof {
        assert(all.take(0) =~= Seq::empty());
        assert(keys_of(peers@) =~= Seq::empty());
    }
    while i < members.len()
        invariant
            0 <= i <= members@.len(),
            all == texts(members@),
            keys_of(peers@) == listed_peers(all.take(i as int), opt_key(*ours)),
        decreases members@.len() - i,
    {
        let ghost before = keys_of(peers@);
        assert(all.take(i as int + 1).drop_last() =~= all.take(i as int));
        match NodeId::parse(members[i].as_str()) {
            Ok(node) => {
                let us = match ours {
                    Some(id) => id.same(&node),
                    None => false,
                };
                if !us {
                    peers.push(node);
                    assert(keys_of(peers@) =~= before.push(node@));
                }
            },
            Err(_) => {},
        }
        i += 1;
    }
    assert(all.take(all.len() as int) =~= all);
    peers
}

/// The peers that are called into a group call: those that take part, and those that are online.
pub open spec fn call_targets(
    members: Seq<Seq<u8>>,
    participants: Seq<Seq<char>>,
    status: Map<Seq<u8>, Availability>,
) -> Seq<Seq<u8>>
    decreases members.len(),
{
    if members.len() == 0 {
        Seq::empty()
    } else {
        let rest = call_targets(members.drop_last(), participants, status);
        let key = members.last();
        if names_key(participants, key) || (status.contains_key(key) && status[key]
            == Availability::Online) {
            rest.push(key)
        } else {
            rest
        }
    }
}

/// The call that we begin.
pub open spec fn begun_call(
    conversation_id: Seq<char>,
    title: Seq<char>,
    ours: Seq<u8>,
    now: i64,
) -> CallView {
    CallView {
        call_id: conversation_id + ":"@ + short_form(ours) + ":"@ + signed_decimal(now as int),
        conversation_id,
        title,
        initiator: hex_lower(ours),
        started_at_ms: now,
        ended_at_ms: None,
        participants: Seq::empty(),
    }
}

/// Whether a call is another with ourselves among its participants, which ascend.
pub open spec fn joined_call(after: CallView, before: CallView, ours: Seq<u8>) -> bool {
    &&& after == (CallView { participants: after.participants, ..before })
    &&& ascending(after.participants)
    &&& forall|who: Seq<char>| #[trigger]
        after.participants.contains(who) <==> before.participants.contains(who) || who
            == hex_lower(ours)
}

/// What the service is told when we enter a call.
pub struct EnterGroupCall {
    pub call: GroupCallAnnouncement,
    /// The peers that are called.
    pub targets: Vec<NodeId>,
    /// The peers that are told.
    pub notify: Vec<NodeId>,
}

fn sorted_texts(names: &Table<String, ()>) -> (list: Vec<String>)
    requires
        names.wf(),
    ensures
        ascending(texts(list@)),
        forall|who: Seq<char>| #[trigger] texts(list@).contains(who) <==> names@.contains_key(who),
{
    let mut list: Vec<String> = Vec::new();
    let mut i: usize = 0;
    while i < names.entries.len()
        invariant
            0 <= i <= names.entries@.len(),
            list@.len() == i,
            forall|j: int| 0 <= j < i ==> (#[trigger] list@[j])@ == names.entries@[j].0@,
        decreases names.entries@.len() - i,
    {
        list.push(names.entries[i].0.clone());
        i += 1;
    }
    proof {
        let out = texts(list@);
        assert forall|a: int, b: int| 0 <= a < b < out.len() implies text_lt(
            #[trigger] out[a],
            #[trigger] out[b],
        ) by {
            assert(out[a] == names.names()[a]);
            assert(out[b] == names.names()[b]);
            assert(String::before(names.names()[a], names.names()[b]));
        }
        assert forall|who: Seq<char>| #[trigger]
            out.contains(who) <==> names@.contains_key(who) by {
            if out.contains(who) {
                let k = choose|k: int| 0 <= k < out.len() && out[k] == who;
                names.lemma_entry(k);
            }
            if names@.contains_key(who) {
                let k = names.lemma_held(who);
                assert(out[k] == who);
            }
        }
    }
    list
}

fn add_texts(names: &mut Table<String, ()>, list: &Vec<String>)
    requires
        old(names).wf(),
    ensures
        final(names).wf(),
        forall|who: Seq<char>| #[trigger]
            final(names)@.contains_key(who) <==> old(names)@.contains_key(who) || texts(
                list@,
            ).contains(who),
{
    let ghost before = names@;
    let ghost all = texts(list@);
    let mut i: usize = 0;
    while i < list.len()
        invariant
            0 <= i <= list@.len(),
            all == texts(list@),
            names.wf(),
            forall|who: Seq<char>| #[trigger]
                names@.contains_key(who) <==> before.contains_key(who) || all.take(
                    i as int,
                ).contains(who),
        decreases list@.len() - i,
    {
        let ghost now = names@;
        names.insert(list[i].clone(), ());
        proof {
            let short = all.take(i as int);
            let long = all.take(i as int + 1);
            assert(long =~= short.push(all[i as int]));
            assert forall|who: Seq<char>| #[trigger]
                names@.contains_key(who) <==> before.contains_key(who) || long.contains(who) by {
                if long.contains(who) {
                    let k = choose|k: int| 0 <= k < long.len() && long[k] == who;
                    if k < i {
                        assert(short[k] == who);
                        assert(short.contains(who));
                        assert(now.contains_key(who));
                    }
                }
                if short.contains(who) {
                    let k = choose|k: int| 0 <= k < short.len() && short[k] == who;
                    assert(long[k] == who);
                }
                assert(long[i as int] == all[i as int]);
                assert(now.contains_key(who) <==> before.contains_key(who) || short.contains(who));
            }
        }
        i += 1;
    }
    assert(all.take(all.len() as int) =~= all);
}

impl GroupCalls {
    /// The tables are in order.
    pub open spec fn wf(self) -> bool {
        &&& self.reports.wf()
        &&& self.seen.wf()
        &&& self.status.wf()
    }

    /// All calls that are known.
    pub open spec fn calls(self) -> Seq<CallView> {
        known_calls(opt_call(self.local), self.reports.entries@)
    }

    /// Nothing known but what was seen before; of that, what is too old is forgotten.
    pub fn load(seen: &Table<String, i64>, now: i64) -> (g: GroupCalls)
        requires
            seen.wf(),
        ensures
            g.wf(),
            g.seen@ == recent(seen@, now as int),
            g.reports@ == Map::<Seq<u8>, Vec<GroupCallAnnouncement>>::empty(),
            g.status@ == Map::<Seq<u8>, Availability>::empty(),
            g.local is None,
    {
        GroupCalls {
            reports: Table::new(),
            local: None,
            seen: keep_recent(seen, now),
            status: Table::new(),
        }
    }

    /// A peer has told its state. One that is not online reports nothing.
    pub fn client_status(
        &mut self,
        peer: NodeId,
        availability: Availability,
        calls: Vec<GroupCallAnnouncement>,
    )
        requires
            old(self).wf(),
        ensures
            final(self).wf(),
            final(self).reports@ == if availability == Availability::Online {
                old(self).reports@.insert(peer@, calls)
            } else {
                old(self).reports@.remove(peer@)
            },
            final(self).status@ == old(self).status@.insert(peer@, availability),
            final(self).local == old(self).local,
            final(self).seen == old(self).seen,
    {
        if availability == Availability::Online {
            self.reports.insert(peer, calls);
        } else {
            let _ = self.reports.remove(&peer);
        }
        self.status.insert(peer, availability);
    }

    /// Forgets what a peer has told of its state.
    pub fn forget_status(&mut self, peer: &NodeId)
        requires
            old(self).wf(),
        ensures
            final(self).wf(),
            final(self).status@ == old(self).status@.remove(peer@),
            final(self).reports == old(self).reports,
            final(self).local == old(self).local,
            final(self).seen == old(self).seen,
    {
        let _ = self.status.remove(peer);
    }

    fn all_reported(&self) -> (calls: Vec<GroupCallAnnouncement>)
        ensures
            call_views(calls@) == reported(self.reports.entries@),
    {
        let ghost all = self.reports.entries@;
        let mut calls: Vec<GroupCallAnnouncement> = Vec::new();
        let mut i: usize = 0;
        proof {
            assert(all.take(0) =~= Seq::empty());
            assert(call_views(calls@) =~= Seq::empty());
        }
        while i < self.reports.entries.len()
            invariant
                0 <= i <= self.reports.entries@.len(),
                all == self.reports.entries@,
                call_views(calls@) == reported(all.take(i as int)),
            decreases self.reports.entries@.len() - i,
        {
            let list = &self.reports.entries[i].1;
            let ghost before = call_views(calls@);
            assert(all.take(i as int + 1).drop_last() =~= all.take(i as int));
            let mut j: usize = 0;
            assert(call_views(calls@) =~= before + call_views(list@).take(0));
            while j < list.len()
                invariant
                    0 <= j <= list@.len(),
                    call_views(calls@) == before + call_views(list@).take(j as int),
                decreases list@.len() - j,
            {
                let ghost now = call_views(calls@);
                calls.push(list[j].clone());
                assert(call_views(calls@) =~= now.push(list@[j as int]@));
                assert(call_views(calls@) =~= before + call_views(list@).take(j as int + 1));
                j += 1;
            }
            assert(call_views(list@).take(list@.len() as int) =~= call_views(list@));
            i += 1;
        }
        assert(all.take(all.len() as int) =~= all);
        calls
    }

    fn all_calls(&self) -> (calls: Vec<GroupCallAnnouncement>)
        ensures
            call_views(calls@) == self.calls(),
    {
        let mut calls: Vec<GroupCallAnnouncement> = Vec::new();
        match &self.local {
            Some(call) => {
                calls.push(call.clone());
                assert(call_views(calls@) =~= seq![call@]);
            },
            None => {
                assert(call_views(calls@) =~= Seq::empty());
            },
        }
        let ghost first = calls@;
        let mut more = self.all_reported();
        let ghost second = more@;
        calls.append(&mut more);
        assert(call_views(calls@) =~= call_views(first) + call_views(second));
        calls
    }

    /// The call of a group that goes on, with all participants that anybody lists.
    pub fn group_call_for(&self, conversation_id: &str) -> (r: Option<GroupCallAnnouncement>)
        ensures
            match r {
                None => latest_call(self.calls(), conversation_id@) is None,
                Some(call) => {
                    &&& latest_call(self.calls(), conversation_id@) is Some
                    &&& call@ == (CallView {
                        participants: call@.participants,
                        ..latest_call(self.calls(), conversation_id@)->0
                    })
                    &&& ascending(call@.participants)
                    &&& forall|who: Seq<char>| #[trigger]
                        call@.participants.contains(who) <==> takes_part(
                            self.calls(),
                            call@.call_id,
                            who,
                        )
                },
            },
    {
        let calls = self.all_calls();
        let ghost all = call_views(calls@);
        let mut latest: Option<usize> = None;
        let mut i: usize = 0;
        assert(all.take(0) =~= Seq::empty());
        while i < calls.len()
            invariant
                0 <= i <= calls@.len(),
                all == call_views(calls@),
                match latest {
                    Some(k) => k < i && latest_call(all.take(i as int), conversation_id@) == Some(
                        all[k as int],
                    ),
                    None => latest_call(all.take(i as int), conversation_id@) is None,
                },
            decreases calls@.len() - i,
        {
            assert(all.take(i as int + 1).drop_last() =~= all.take(i as int));
            if same_text(calls[i].conversation_id.as_str(), conversation_id)
                && calls[i].ended_at_ms.is_none() {
                let later = match latest {
                    Some(k) => calls[i].started_at_ms >= calls[k].started_at_ms,
                    None => true,
                };
                if later {
                    latest = Some(i);
                }
            }
            i += 1;
        }
        assert(all.take(all.len() as int) =~= all);
        let at: usize = match latest {
            Some(k) => k,
            None => {
                return None;
            },
        };
        let mut merged = calls[at].clone();
        let ghost id = merged.call_id@;
        let mut names: Table<String, ()> = Table::new();
        let mut j: usize = 0;
        while j < calls.len()
            invariant
                0 <= j <= calls@.len(),
                all == call_views(calls@),
                id == merged.call_id@,
                names.wf(),
                forall|who: Seq<char>| #[trigger]
                    names@.contains_key(who) <==> takes_part(all.take(j as int), id, who),
            decreases calls@.len() - j,
        {
            let ghost before = names@;
            let ghost short = all.take(j as int);
            let ghost long = all.take(j as int + 1);
            let same = same_text(calls[j].call_id.as_str(), merged.call_id.as_str());
            if same {
                add_texts(&mut names, &calls[j].participants);
            }
            proof {
                assert(long[j as int] == calls@[j as int]@);
                assert forall|who: Seq<char>| #[trigger]
                    names@.contains_key(who) <==> takes_part(long, id, who) by {
                    if takes_part(long, id, who) {
                        let k = choose|k: int|
                            0 <= k < long.len() && (#[trigger] long[k]).call_id == id
                                && long[k].participants.contains(who);
                        if k < j {
                            assert(short[k] == long[k]);
                            assert(takes_part(short, id, who));
                        }
                    }
                    if takes_part(short, id, who) {
                        let k = choose|k: int|
                            0 <= k < short.len() && (#[trigger] short[k]).call_id == id
                                && short[k].participants.contains(who);
                        assert(long[k] == short[k]);
                    }
                    assert(before.contains_key(who) <==> takes_part(short, id, who));
                }
            }
            j += 1;
        }
        assert(all.take(all.len() as int) =~= all);
        merged.participants = sorted_texts(&names);
        Some(merged)
    }

    /// Remembers that a call was seen; what is too old is forgotten.
    pub fn mark_group_call_seen(&mut self, call_id: String, now: i64)
        requires
            old(self).wf(),
        ensures
            final(self).wf(),
            final(self).seen@ == with_seen(old(self).seen@, call_id@, now),
            final(self).reports == old(self).reports,
            final(self).local == old(self).local,
            final(self).status == old(self).status,
    {
        self.seen.insert(call_id, now);
        self.seen = keep_recent(&self.seen, now);
    }

    /// Remembers that the ended calls of a conversation were seen.
    pub fn acknowledge_missed_group_calls(&mut self, conversation_id: &str, now: i64)
        requires
            old(self).wf(),
        ensures
            final(self).wf(),
            final(self).reports == old(self).reports,
            final(self).local == old(self).local,
            final(self).status == old(self).status,
            final(self).seen@ == acknowledged(
                old(self).seen@,
                reported(old(self).reports.entries@),
                conversation_id@,
                now,
            ),
    {
        let calls = self.all_reported();
        let ghost all = call_views(calls@);
        let ghost seen = self.seen@;
        let mut i: usize = 0;
        assert(all.take(0) =~= Seq::empty());
        while i < calls.len()
            invariant
                0 <= i <= calls@.len(),
                all == call_views(calls@),
                self.wf(),
                self.reports == old(self).reports,
                self.local == old(self).local,
                self.status == old(self).status,
                self.seen@ == acknowledged(seen, all.take(i as int), conversation_id@, now),
            decreases calls@.len() - i,
        {
            assert(all.take(i as int + 1).drop_last() =~= all.take(i as int));
            if same_text(calls[i].conversation_id.as_str(), conversation_id)
                && calls[i].ended_at_ms.is_some() {
                self.mark_group_call_seen(calls[i].call_id.clone(), now);
            }
            i += 1;
        }
        assert(all.take(all.len() as int) =~= all);
    }

    /// Whether a call of a conversation was missed.
    pub fn missed_group_call(&self, conversation_id: &str, ours: &Option<NodeId>, now: i64) -> (r:
        bool)
        requires
            self.wf(),
        ensures
            r == missed_one(
                reported(self.reports.entries@),
                conversation_id@,
                self.seen@,
                opt_key(*ours),
                now as int,
            ),
    {
        let calls = self.all_reported();
        let ghost all = call_views(calls@);
        let mut i: usize = 0;
        while i < calls.len()
            invariant
                0 <= i <= calls@.len(),
                all == call_views(calls@),
                all == reported(self.reports.entries@),
                self.wf(),
                forall|j: int|
                    0 <= j < i ==> !is_missed(
                        #[trigger] all[j],
                        conversation_id@,
                        self.seen@,
                        opt_key(*ours),
                        now as int,
                    ),
            decreases calls@.len() - i,
        {
            let call = &calls[i];
            assert(all[i as int] == call@);
            let fresh = match call.ended_at_ms {
                Some(ended) => (now as i128) - (ended as i128) < MISSED_CALL_MS as i128,
                None => false,
            };
            let part = match ours {
                Some(node) => list_has(&call.participants, node.to_text().as_str()),
                None => false,
            };
            if fresh && !part && same_text(call.conversation_id.as_str(), conversation_id)
                && !self.seen.has(&call.call_id) {
                assert(is_missed(
                    all[i as int],
                    conversation_id@,
                    self.seen@,
                    opt_key(*ours),
                    now as int,
                ));
                return true;
            }
            i += 1;
        }
        false
    }

    /// Enters a call: an existing one, or a new one of the conversation.
    pub fn enter_group_call(
        &mut self,
        conversation: &ChatConversation,
        existing: Option<GroupCallAnnouncement>,
        our_node_id: &NodeId,
        now: i64,
    ) -> (r: EnterGroupCall)
        requires
            old(self).wf(),
        ensures
            final(self).wf(),
            final(self).reports == old(self).reports,
            final(self).status == old(self).status,
            opt_call(final(self).local) == Some(r.call@),
            joined_call(
                r.call@,
                match existing {
                    Some(call) => call@,
                    None => begun_call(
                        conversation@.id,
                        conversation@.title,
                        our_node_id@,
                        now,
                    ),
                },
                our_node_id@,
            ),
            keys_of(r.notify@) == listed_peers(conversation@.members, Some(our_node_id@)),
            keys_of(r.targets@) == call_targets(
                listed_peers(conversation@.members, Some(our_node_id@)),
                r.call@.participants,
                old(self).status@,
            ),
            final(self).seen@ == with_seen(
                acknowledged(
                    old(self).seen@,
                    reported(old(self).reports.entries@),
                    conversation@.id,
                    now,
                ),
                r.call@.call_id,
                now,
            ),
    {
        self.acknowledge_missed_group_calls(conversation.id.as_str(), now);
        let ours = Some(*our_node_id);
        let members = peers_of_members(&conversation.members, &ours);
        let text = our_node_id.to_text();
        let mut call = match existing {
            Some(call) => call,
            None => {
                let mut id: String = conversation.id.clone();
                id.append(":");
                id.append(our_node_id.fmt_short().as_str());
                id.append(":");
                push_signed(&mut id, now);
                let nobody: Vec<String> = Vec::new();
                assert(texts(nobody@) =~= Seq::empty());
                GroupCallAnnouncement {
                    call_id: id,
                    conversation_id: conversation.id.clone(),
                    title: conversation.title.clone(),
                    initiator: our_node_id.to_text(),
                    started_at_ms: now,
                    ended_at_ms: None,
                    participants: nobody,
                }
            },
        };
        let mut names: Table<String, ()> = Table::new();
        add_texts(&mut names, &call.participants);
        names.insert(text, ());
        call.participants = sorted_texts(&names);
        let targets = self.targets(&members, &call.participants);
        self.local = Some(call.clone());
        self.mark_group_call_seen(call.call_id.clone(), now);
        EnterGroupCall { call, targets, notify: members }
    }

    fn targets(&self, members: &Vec<NodeId>, participants: &Vec<String>) -> (targets: Vec<NodeId>)
        requires
            self.wf(),
        ensures
            keys_of(targets@) == call_targets(
                keys_of(members@),
                texts(participants@),
                self.status@,
            ),
    {
        let ghost keys = keys_of(members@);
        let ghost names = texts(participants@);
        let mut targets: Vec<NodeId> = Vec::new();
        let mut i: usize = 0;
        proof {
            assert(keys.take(0) =~= Seq::empty());
            assert(keys_of(targets@) =~= Seq::empty());
        }
        while i < members.len()
            invariant
                0 <= i <= members@.len(),
                self.wf(),
                keys == keys_of(members@),
                names == texts(participants@),
                keys_of(targets@) == call_targets(keys.take(i as int), names, self.status@),
            decreases members@.len() - i,
        {
            let node = members[i];
            let ghost before = keys_of(targets@);
            assert(keys.take(i as int + 1).drop_last() =~= keys.take(i as int));
            let online = match self.status.get(&node) {
                Some(availability) => *availability == Availability::Online,
                None => false,
            };
            if online || names_peer(participants, &node) {
                targets.push(node);
                assert(keys_of(targets@) =~= before.push(node@));
            }
            i += 1;
        }
        assert(keys.take(keys.len() as int) =~= keys);
        targets
    }

    /// Leaves the call that we are in; gives the peers that are told, if we are in one.
    pub fn leave_group_call(
        &mut self,
        conversations: &Table<String, ChatConversation>,
        our_node_id: &Option<NodeId>,
    ) -> (notify: Option<Vec<NodeId>>)
        requires
            old(self).wf(),
            conversations.wf(),
        ensures
            final(self).wf(),
            final(self).local is None,
            final(self).reports == old(self).reports,
            final(self).seen == old(self).seen,
            final(self).status == old(self).status,
            match notify {
                None => old(self).local is None,
                Some(peers) => old(self).local is Some && keys_of(peers@) == ({
                    let id = old(self).local->0@.conversation_id;
                    if conversations@.contains_key(id) {
                        listed_peers(conversations@[id]@.members, opt_key(*our_node_id))
                    } else {
                        Seq::empty()
                    }
                }),
            },
    {
        let mut local: Option<GroupCallAnnouncement> = None;
        std::mem::swap(&mut local, &mut self.local);
        match local {
            None => None,
            Some(call) => match conversations.get(&call.conversation_id) {
                Some(conversation) => Some(peers_of_members(&conversation.members, our_node_id)),
                None => {
                    let nobody: Vec<NodeId> = Vec::new();
                    assert(keys_of(nobody@) =~= Seq::empty());
                    Some(nobody)
                },
            },
        }
    }
}

fn names_peer(participants: &Vec<String>, node: &NodeId) -> (r: bool)
    ensures
        r == names_key(texts(participants@), node@),
{
    let ghost names = texts(participants@);
    let mut i: usize = 0;
    while i < participants.len()
        invariant
            0 <= i <= participants@.len(),
            names == texts(participants@),
            forall|j: int|
                0 <= j < i ==> parsed_key(#[trigger] names[j]) != Ok::<Seq<u8>, Seq<char>>(node@),
        decreases participants@.len() - i,
    {
        assert(names[i as int] == participants@[i as int]@);
        match NodeId::parse(participants[i].as_str()) {
            Ok(other) => {
                if other.same(node) {
                    return true;
                }
            },
            Err(_) => {},
        }
        i += 1;
    }
    false
}

fn keep_recent(seen: &Table<String, i64>, now: i64) -> (kept: Table<String, i64>)
    requires
        seen.wf(),
    ensures
        kept.wf(),
        kept@ == recent(seen@, now as int),
{
    let mut kept: Table<String, i64> = Table::new();
    let mut i: usize = 0;
    while i < seen.entries.len()
        invariant
            0 <= i <= seen.entries@.len(),
            seen.wf(),
            kept.wf(),
            forall|id: Seq<char>| #[trigger]
                kept@.contains_key(id) <==> exists|j: int|
                    0 <= j < i && (#[trigger] seen.entries@[j]).0@ == id && seen.entries@[j].1
                        >= now - SEEN_GROUP_CALL_RETENTION_MS,
            forall|id: Seq<char>| #[trigger]
                kept@.contains_key(id) ==> seen@.contains_key(id) && kept@[id] == seen@[id],
        decreases seen.entries@.len() - i,
    {
        let ghost before = kept@;
        let at: i64 = seen.entries[i].1;
        proof {
            seen.lemma_entry(i as int);
        }
        if (at as i128) >= (now as i128) - (SEEN_GROUP_CALL_RETENTION_MS as i128) {
            kept.insert(seen.entries[i].0.clone(), at);
        }
        proof {
            assert forall|id: Seq<char>| #[trigger]
                kept@.contains_key(id) <==> exists|j: int|
                    0 <= j < i + 1 && (#[trigger] seen.entries@[j]).0@ == id && seen.entries@[j].1
                        >= now - SEEN_GROUP_CALL_RETENTION_MS by {
                if kept@.contains_key(id) {
                    if before.contains_key(id) {
                        let j = choose|j: int|
                            0 <= j < i && (#[trigger] seen.entries@[j]).0@ == id
                                && seen.entries@[j].1 >= now - SEEN_GROUP_CALL_RETENTION_MS;
                        assert(seen.entries@[j].0@ == id);
                    } else {
                        assert(seen.entries@[i as int].0@ == id);
                    }
                }
                if exists|j: int|
                    0 <= j < i + 1 && (#[trigger] seen.entries@[j]).0@ == id && seen.entries@[j].1
                        >= now - SEEN_GROUP_CALL_RETENTION_MS {
                    let j = choose|j: int|
                        0 <= j < i + 1 && (#[trigger] seen.entries@[j]).0@ == id
                            && seen.entries@[j].1 >= now - SEEN_GROUP_CALL_RETENTION_MS;
                    if j < i {
                        assert(before.contains_key(id));
                    }
                }
            }
        }
        i += 1;
    }
    proof {
        let goal = recent(seen@, now as int);
        assert forall|id: Seq<char>| kept@.contains_key(id) <==> goal.contains_key(id) by {
            if kept@.contains_key(id) {
                let j = choose|j: int|
                    0 <= j < i && (#[trigger] seen.entries@[j]).0@ == id && seen.entries@[j].1
                        >= now - SEEN_GROUP_CALL_RETENTION_MS;
                seen.lemma_entry(j);
            }
            if goal.contains_key(id) {
                let j = seen.lemma_held(id);
                assert(seen.entries@[j].0@ == id);
            }
        }
        assert(kept@ =~= goal);
    }
    kept
}

/// What is remembered once the ended calls of a conversation were seen.
pub open spec fn acknowledged(
    seen: Map<Seq<char>, i64>,
    calls: Seq<CallView>,
    conversation: Seq<char>,
    now: i64,
) -> Map<Seq<char>, i64>
    decreases calls.len(),
{
    if calls.len() == 0 {
        seen
    } else {
        let before = acknowledged(seen, calls.drop_last(), conversation, now);
        if has_ended(calls.last(), conversation) {
            with_seen(before, calls.last().call_id, now)
        } else {
            before
        }
    }
}

/// Whether an incoming call can only be answered after leaving the group call that we are in:
/// the caller does not report to be in it.
pub fn incoming_call_requires_group_switch(
    local: Option<&GroupCallAnnouncement>,
    remote_calls: Option<&Vec<GroupCallAnnouncement>>,
) -> (r: bool)
    ensures
        r == (local is Some && !(remote_calls is Some && shares_call(
            call_views(remote_calls->0@),
            local->0@.call_id,
        ))),
{
    let ours = match local {
        Some(call) => call,
        None => {
            return false;
        },
    };
    let calls = match remote_calls {
        Some(calls) => calls,
        None => {
            return true;
        },
    };
    let ghost all = call_views(calls@);
    let mut i: usize = 0;
    while i < calls.len()
        invariant
            0 <= i <= calls@.len(),
            local == Some(ours),
            remote_calls == Some(calls),
            all == call_views(calls@),
            forall|j: int|
                0 <= j < i ==> !((#[trigger] all[j]).call_id == ours@.call_id
                    && all[j].ended_at_ms is None),
        decreases calls@.len() - i,
    {
        assert(all[i as int] == calls@[i as int]@);
        if same_text(calls[i].call_id.as_str(), ours.call_id.as_str())
            && calls[i].ended_at_ms.is_none() {
            return false;
        }
        i += 1;
    }
    true
}

/// Whether one of the calls is the one with this id and goes on.
pub open spec fn shares_call(calls: Seq<CallView>, call_id: Seq<char>) -> bool {
    exists|i: int|
        0 <= i < calls.len() && (#[trigger] calls[i]).call_id == call_id && calls[i].ended_at_ms
            is None
}

// ---------------------------------------------------------------------------
// Laws
// ---------------------------------------------------------------------------

proof fn lemma_acknowledged(
    seen: Map<Seq<char>, i64>,
    calls: Seq<CallView>,
    conversation: Seq<char>,
    now: i64,
)
    ensures
        forall|i: int|
            0 <= i < calls.len() && has_ended(#[trigger] calls[i], conversation) ==> acknowledged(
                seen,
                calls,
                conversation,
                now,
            ).contains_key(calls[i].call_id),
        forall|i: int|
            0 <= i < calls.len() && has_ended(#[trigger] calls[i], conversation) ==> acknowledged(
                seen,
                calls,
                conversation,
                now,
            )[calls[i].call_id] == now,
    decreases calls.len(),
{
    if calls.len() > 0 {
        let rest = calls.drop_last();
        lemma_acknowledged(seen, rest, conversation, now);
        let after = acknowledged(seen, calls, conversation, now);
        assert forall|i: int|
            0 <= i < calls.len() && has_ended(#[trigger] calls[i], conversation) implies (
        after.contains_key(calls[i].call_id) && after[calls[i].call_id] == now) by {
            if i < rest.len() {
                assert(rest[i] == calls[i]);
            }
        }
    }
}

/// Once the ended calls of a conversation were seen, none of it counts as missed any more.
pub proof fn law_acknowledged_calls_are_not_missed(
    seen: Map<Seq<char>, i64>,
    calls: Seq<CallView>,
    conversation: Seq<char>,
    ours: Option<Seq<u8>>,
    now: i64,
)
    ensures
        !missed_one(
            calls,
            conversation,
            acknowledged(seen, calls, conversation, now),
            ours,
            now as int,
        ),
{
    lemma_acknowledged(seen, calls, conversation, now);
}

/// Nothing is remembered for longer than seven days, and what was seen just now is.
pub proof fn law_seen_calls_are_forgotten(seen: Map<Seq<char>, i64>, id: Seq<char>, now: i64)
    ensures
        with_seen(seen, id, now).contains_key(id),
        forall|other: Seq<char>| #[trigger]
            with_seen(seen, id, now).contains_key(other) ==> with_seen(seen, id, now)[other] >= now
                - SEEN_GROUP_CALL_RETENTION_MS,
{
}

/// No call of the conversation that goes on began after the one that is shown.
pub proof fn law_latest_call_is_shown(calls: Seq<CallView>, conversation: Seq<char>, i: int)
    requires
        0 <= i < calls.len(),
        goes_on(calls[i], conversation),
    ensures
        latest_call(calls, conversation) is Some,
        goes_on(latest_call(calls, conversation)->0, conversation),
        calls[i].started_at_ms <= latest_call(calls, conversation)->0.started_at_ms,
        calls.contains(latest_call(calls, conversation)->0),
    decreases calls.len(),
{
    let rest = calls.drop_last();
    let last = calls.last();
    assert(calls[calls.len() - 1] == last);
    if i < rest.len() {
        assert(rest[i] == calls[i]);
        law_latest_call_is_shown(rest, conversation, i);
    } else if latest_call(rest, conversation) is Some {
        lemma_latest_goes_on(rest, conversation);
    }
    if latest_call(calls, conversation) == latest_call(rest, conversation) {
        let call = latest_call(rest, conversation)->0;
        let k = choose|k: int| 0 <= k < rest.len() && rest[k] == call;
        assert(calls[k] == call);
    }
}

proof fn lemma_latest_goes_on(calls: Seq<CallView>, conversation: Seq<char>)
    requires
        latest_call(calls, conversation) is Some,
    ensures
        goes_on(latest_call(calls, conversation)->0, conversation),
        calls.contains(latest_call(calls, conversation)->0),
    decreases calls.len(),
{
    let rest = calls.drop_last();
    assert(calls[calls.len() - 1] == calls.last());
    if latest_call(calls, conversation) == latest_call(rest, conversation) {
        lemma_latest_goes_on(rest, conversation);
        let call = latest_call(rest, conversation)->0;
        let k = choose|k: int| 0 <= k < rest.len() && rest[k] == call;
        assert(calls[k] == call);
    }
}

proof fn lemma_listed_peers(members: Seq<Seq<char>>, ours: Option<Seq<u8>>, key: Seq<u8>)
    ensures
        listed_peers(members, ours).contains(key) <==> ours != Some(key) && names_key(members, key),
    decreases members.len(),
{
    if members.len() > 0 {
        let shorter = members.drop_last();
        let rest = listed_peers(shorter, ours);
        lemma_listed_peers(shorter, ours, key);
        assert(names_key(members, key) <==> names_key(shorter, key) || parsed_key(members.last())
            == Ok::<Seq<u8>, Seq<char>>(key)) by {
            if names_key(shorter, key) {
                let i = choose|i: int|
                    0 <= i < shorter.len() && parsed_key(#[trigger] shorter[i]) == Ok::<
                        Seq<u8>,
                        Seq<char>,
                    >(key);
                assert(members[i] == shorter[i]);
            }
            if names_key(members, key) {
                let i = choose|i: int|
                    0 <= i < members.len() && parsed_key(#[trigger] members[i]) == Ok::<
                        Seq<u8>,
                        Seq<char>,
                    >(key);
                if i < shorter.len() {
                    assert(shorter[i] == members[i]);
                }
            }
            assert(members[members.len() - 1] == members.last());
        }
        match parsed_key(members.last()) {
            Ok(last) => {
                lemma_held_after_push(rest, last, key);
            },
            Err(_) => {},
        }
    }
}

/// The peers that are told of a call are the members of the group but ourselves, and nobody
/// else.
pub proof fn law_every_other_member_is_told(
    members: Seq<Seq<char>>,
    ours: Option<Seq<u8>>,
    key: Seq<u8>,
)
    ensures
        listed_peers(members, ours).contains(key) <==> ours != Some(key) && exists|i: int|
            0 <= i < members.len() && parsed_key(#[trigger] members[i]) == Ok::<
                Seq<u8>,
                Seq<char>,
            >(key),
{
    lemma_listed_peers(members, ours, key);
}

proof fn lemma_call_targets(
    peers: Seq<Seq<u8>>,
    participants: Seq<Seq<char>>,
    status: Map<Seq<u8>, Availability>,
    key: Seq<u8>,
)
    ensures
        call_targets(peers, participants, status).contains(key) <==> peers.contains(key) && (
        names_key(participants, key) || (status.contains_key(key) && status[key]
            == Availability::Online)),
    decreases peers.len(),
{
    if peers.len() > 0 {
        let rest = call_targets(peers.drop_last(), participants, status);
        lemma_call_targets(peers.drop_last(), participants, status, key);
        lemma_held_or_last(peers, key);
        lemma_held_after_push(rest, peers.last(), key);
    }
}

/// Every other member that is online is called into a call that we enter, and so is every other
/// member that already takes part; nobody else is.
pub proof fn law_online_members_are_called(
    members: Seq<Seq<char>>,
    ours: Seq<u8>,
    participants: Seq<Seq<char>>,
    status: Map<Seq<u8>, Availability>,
    key: Seq<u8>,
)
    ensures
        ({
            let called = call_targets(listed_peers(members, Some(ours)), participants, status);
            let member = exists|i: int|
                0 <= i < members.len() && parsed_key(#[trigger] members[i]) == Ok::<
                    Seq<u8>,
                    Seq<char>,
                >(key);
            let takes_part = exists|i: int|
                0 <= i < participants.len() && parsed_key(#[trigger] participants[i]) == Ok::<
                    Seq<u8>,
                    Seq<char>,
                >(key);
            let online = status.contains_key(key) && status[key] == Availability::Online;
            called.contains(key) <==> member && key != ours && (online || takes_part)
        }),
{
    lemma_listed_peers(members, Some(ours), key);
    lemma_call_targets(listed_peers(members, Some(ours)), participants, status, key);
}

/// A call that we enter has us among its participants, beside everybody that was there; it is
/// otherwise the call that it was.
pub proof fn law_entered_call_has_us(after: CallView, before: CallView, ours: Seq<u8>)
    requires
        joined_call(after, before, ours),
    ensures
        after.participants.contains(hex_lower(ours)),
        forall|who: Seq<char>|
            before.participants.contains(who) ==> #[trigger] after.participants.contains(who),
        forall|who: Seq<char>| #[trigger]
            after.participants.contains(who) && who != hex_lower(ours)
                ==> before.participants.contains(who),
        after.call_id == before.call_id,
        after.conversation_id == before.conversation_id,
        after.title == before.title,
        after.initiator == before.initiator,
        after.started_at_ms == before.started_at_ms,
        after.ended_at_ms == before.ended_at_ms,
        after.participants.no_duplicates(),
{
    let all = after.participants;
    assert forall|i: int, j: int| 0 <= i < j < all.len() implies all[i] != all[j] by {
        lemma_text_lt_total(all[i], all[j]);
        assert(text_lt(all[i], all[j]));
    }
}

/// A call that we begin is one of its conversation, by us and from now on, and goes on: it is
/// the call that is shown unless a later one is known.
pub proof fn law_begun_call_goes_on(
    conversation: Seq<char>,
    title: Seq<char>,
    ours: Seq<u8>,
    now: i64,
    known: Seq<CallView>,
)
    requires
        forall|i: int|
            0 <= i < known.len() && (#[trigger] known[i]).conversation_id == conversation
                ==> known[i].started_at_ms <= now,
    ensures
        ({
            let call = begun_call(conversation, title, ours, now);
            &&& call.conversation_id == conversation
            &&& call.title == title
            &&& call.initiator == hex_lower(ours)
            &&& call.started_at_ms == now
            &&& call.ended_at_ms is None
            &&& latest_call(known.push(call), conversation) == Some(call)
        }),
{
    let call = begun_call(conversation, title, ours, now);
    assert(known.push(call).drop_last() =~= known);
    if latest_call(known, conversation) is Some {
        lemma_latest_goes_on(known, conversation);
        let shown = latest_call(known, conversation)->0;
        let k = choose|k: int| 0 <= k < known.len() && known[k] == shown;
        assert(known[k].started_at_ms <= now);
    }
}

/// A call is shown exactly if one of the conversation is known that has not ended, and the one
/// shown is such a call.
pub proof fn law_shown_call_goes_on(calls: Seq<CallView>, conversation: Seq<char>)
    ensures
        latest_call(calls, conversation) is Some <==> exists|i: int|
            0 <= i < calls.len() && (#[trigger] calls[i]).conversation_id == conversation
                && calls[i].ended_at_ms is None,
        latest_call(calls, conversation) is Some ==> latest_call(
            calls,
            conversation,
        )->0.conversation_id == conversation && latest_call(
            calls,
            conversation,
        )->0.ended_at_ms is None && calls.contains(latest_call(calls, conversation)->0),
{
    if latest_call(calls, conversation) is Some {
        lemma_latest_goes_on(calls, conversation);
        let shown = latest_call(calls, conversation)->0;
        let k = choose|k: int| 0 <= k < calls.len() && calls[k] == shown;
        assert(calls[k].conversation_id == conversation);
    }
    if exists|i: int|
        0 <= i < calls.len() && (#[trigger] calls[i]).conversation_id == conversation
            && calls[i].ended_at_ms is None {
        let i = choose|i: int|
            0 <= i < calls.len() && (#[trigger] calls[i]).conversation_id == conversation
                && calls[i].ended_at_ms is None;
        law_latest_call_is_shown(calls, conversation, i);
    }
}

/// One more report adds its participants to its own call, and changes no other.
pub proof fn law_reports_add_participants(
    calls: Seq<CallView>,
    report: CallView,
    call_id: Seq<char>,
    who: Seq<char>,
)
    ensures
        takes_part(calls.push(report), call_id, who) <==> takes_part(calls, call_id, who) || (
        report.call_id == call_id && report.participants.contains(who)),
        !takes_part(Seq::empty(), call_id, who),
{
    let more = calls.push(report);
    if takes_part(calls, call_id, who) {
        let i = choose|i: int|
            0 <= i < calls.len() && (#[trigger] calls[i]).call_id == call_id
                && calls[i].participants.contains(who);
        assert(more[i] == calls[i]);
    }
    if takes_part(more, call_id, who) {
        let i = choose|i: int|
            0 <= i < more.len() && (#[trigger] more[i]).call_id == call_id
                && more[i].participants.contains(who);
        if i < calls.len() {
            assert(calls[i] == more[i]);
        }
    }
    assert(more[calls.len() as int] == report);
}

/// Every call that a peer reports is known, and every call that is known is reported by a peer
/// or is the one that we are in.
pub proof fn law_reported_calls_are_known(
    local: Option<CallView>,
    entries: Seq<(NodeId, Vec<GroupCallAnnouncement>)>,
    call: CallView,
)
    ensures
        known_calls(local, entries).contains(call) <==> local == Some(call) || exists|i: int|
            0 <= i < entries.len() && call_views((#[trigger] entries[i]).1@).contains(call),
{
    lemma_reported(entries, call);
    let first = match local {
        Some(call) => seq![call],
        None => Seq::empty(),
    };
    let rest = reported(entries);
    let all = known_calls(local, entries);
    assert(all == first + rest);
    if all.contains(call) {
        let i = choose|i: int| 0 <= i < all.len() && all[i] == call;
        if i >= first.len() {
            assert(rest[i - first.len()] == call);
        }
    }
    if rest.contains(call) {
        let i = choose|i: int| 0 <= i < rest.len() && rest[i] == call;
        assert(all[i + first.len()] == call);
    }
    if local == Some(call) {
        assert(all[0] == call);
    }
}

proof fn lemma_reported(entries: Seq<(NodeId, Vec<GroupCallAnnouncement>)>, call: CallView)
    ensures
        reported(entries).contains(call) <==> exists|i: int|
            0 <= i < entries.len() && call_views((#[trigger] entries[i]).1@).contains(call),
    decreases entries.len(),
{
    if entries.len() > 0 {
        let shorter = entries.drop_last();
        let before = reported(shorter);
        let last = call_views(entries.last().1@);
        lemma_reported(shorter, call);
        let all = reported(entries);
        assert(all == before + last);
        if all.contains(call) {
            let i = choose|i: int| 0 <= i < all.len() && all[i] == call;
            if i < before.len() {
                assert(before[i] == call);
                let k = choose|k: int|
                    0 <= k < shorter.len() && call_views((#[trigger] shorter[k]).1@).contains(call);
                assert(entries[k] == shorter[k]);
            } else {
                assert(last[i - before.len()] == call);
                assert(call_views(entries[entries.len() - 1].1@).contains(call));
            }
        }
        if exists|i: int|
            0 <= i < entries.len() && call_views((#[trigger] entries[i]).1@).contains(call) {
            let k = choose|i: int|
                0 <= i < entries.len() && call_views((#[trigger] entries[i]).1@).contains(call);
            if k < shorter.len() {
                assert(shorter[k] == entries[k]);
                let i = choose|i: int| 0 <= i < before.len() && before[i] == call;
                assert(all[i] == call);
            } else {
                let i = choose|i: int| 0 <= i < last.len() && last[i] == call;
                assert(all[before.len() + i] == call);
            }
        }
    }
}

/// A call was missed exactly if it has ended within the last day, and we neither saw it nor took
/// part. One that goes on, or is of another conversation, is not missed.
pub proof fn law_missed_calls_ended_without_us(
    calls: Seq<CallView>,
    conversation: Seq<char>,
    seen: Map<Seq<char>, i64>,
    ours: Seq<u8>,
    now: int,
)
    ensures
        missed_one(calls, conversation, seen, Some(ours), now) <==> exists|i: int|
            0 <= i < calls.len() && (#[trigger] calls[i]).conversation_id == conversation && (
            match calls[i].ended_at_ms {
                Some(ended) => now < ended + 86_400_000,
                None => false,
            }) && !seen.contains_key(calls[i].call_id) && !calls[i].participants.contains(
                hex_lower(ours),
            ),
{
    if missed_one(calls, conversation, seen, Some(ours), now) {
        let i = choose|i: int|
            0 <= i < calls.len() && is_missed(
                #[trigger] calls[i],
                conversation,
                seen,
                Some(ours),
                now,
            );
        assert(calls[i].conversation_id == conversation);
    }
    if exists|i: int|
        0 <= i < calls.len() && (#[trigger] calls[i]).conversation_id == conversation && (
        match calls[i].ended_at_ms {
            Some(ended) => now < ended + 86_400_000,
            None => false,
        }) && !seen.contains_key(calls[i].call_id) && !calls[i].participants.contains(
            hex_lower(ours),
        ) {
        let i = choose|i: int|
            0 <= i < calls.len() && (#[trigger] calls[i]).conversation_id == conversation && (
            match calls[i].ended_at_ms {
                Some(ended) => now < ended + 86_400_000,
                None => false,
            }) && !seen.contains_key(calls[i].call_id) && !calls[i].participants.contains(
                hex_lower(ours),
            );
        assert(is_missed(calls[i], conversation, seen, Some(ours), now));
    }
}

/// Seeing a call makes us forget no other that was seen within the last seven days.
pub proof fn law_recent_calls_are_remembered(
    seen: Map<Seq<char>, i64>,
    id: Seq<char>,
    now: i64,
    other: Seq<char>,
)
    requires
        other != id,
    ensures
        with_seen(seen, id, now).contains_key(other) <==> seen.contains_key(other) && seen[other]
            >= now - 604_800_000,
        with_seen(seen, id, now).contains_key(other) ==> with_seen(seen, id, now)[other]
            == seen[other],
        with_seen(seen, id, now)[id] == now,
{
}

/// Only the ended calls of a conversation are taken as seen with it; of the others, what was
/// remembered within the last seven days stays as it was.
pub proof fn law_acknowledging_concerns_one_conversation(
    seen: Map<Seq<char>, i64>,
    calls: Seq<CallView>,
    conversation: Seq<char>,
    now: i64,
    id: Seq<char>,
)
    requires
        forall|i: int|
            0 <= i < calls.len() && (#[trigger] calls[i]).call_id == id ==> calls[i].conversation_id
                != conversation || calls[i].ended_at_ms is None,
    ensures
        acknowledged(seen, calls, conversation, now).contains_key(id) ==> seen.contains_key(id)
            && acknowledged(seen, calls, conversation, now)[id] == seen[id],
        seen.contains_key(id) && seen[id] >= now - 604_800_000 ==> acknowledged(
            seen,
            calls,
            conversation,
            now,
        ).contains_key(id),
    decreases calls.len(),
{
    if calls.len() > 0 {
        let shorter = calls.drop_last();
        assert forall|i: int|
            0 <= i < shorter.len() && (#[trigger] shorter[i]).call_id
                == id implies shorter[i].conversation_id != conversation
            || shorter[i].ended_at_ms is None by {
            assert(calls[i] == shorter[i]);
        }
        law_acknowledging_concerns_one_conversation(seen, shorter, conversation, now, id);
        assert(calls[calls.len() - 1] == calls.last());
    }
}

/// A caller shares a call exactly if one of its reports names it and says that it goes on: ended
/// calls and other calls do not count.
pub proof fn law_shared_calls_go_on(
    calls: Seq<CallView>,
    report: CallView,
    call_id: Seq<char>,
)
    ensures
        shares_call(calls.push(report), call_id) <==> shares_call(calls, call_id) || (report.call_id
            == call_id && report.ended_at_ms is None),
        !shares_call(Seq::empty(), call_id),
{
    let more = calls.push(report);
    if shares_call(calls, call_id) {
        let i = choose|i: int|
            0 <= i < calls.len() && (#[trigger] calls[i]).call_id == call_id && calls[i].ended_at_ms
                is None;
        assert(more[i] == calls[i]);
    }
    if shares_call(more, call_id) {
        let i = choose|i: int|
            0 <= i < more.len() && (#[trigger] more[i]).call_id == call_id && more[i].ended_at_ms
                is None;
        if i < calls.len() {
            assert(calls[i] == more[i]);
        }
    }
    assert(more[calls.len() as int] == report);
}

} // verus!
