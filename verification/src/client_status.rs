//! Presence: which peers are online, and which group calls they tell of.
use vstd::prelude::*;
use vstd::utf8::encode_utf8;
use crate::digits::{decimal, push_decimal};
use crate::message::opt_text;
use crate::node::{keys_of, NodeId};
use crate::table::Table;
use crate::text::{lemma_held_after_push, lemma_held_or_last, texts};

verus! {

/// The version that this client tells its peers.
pub const APP_VERSION: &'static str = "0.1.0";

/// How long a call that has ended is still told of, in milliseconds.
pub const MISSED_GROUP_CALL_TTL_MS: i64 = 86_400_000;

/// After how many failures in a row a peer counts as offline.
pub const OFFLINE_AFTER_CONSECUTIVE_FAILURES: u8 = 3;

// ---------------------------------------------------------------------------
// Probes
// ---------------------------------------------------------------------------

/// How the probes of a peer have gone.
#[derive(Debug, Clone, Copy, PartialEq, Eq, Structural)]
pub struct ProbeHealth {
    pub generation: u64,
    pub consecutive_failures: u8,
    pub offline_emitted: bool,
}

/// The generation after this one; never zero.
pub open spec fn next_generation(generation: u64) -> u64 {
    if generation == u64::MAX {
        1
    } else {
        (generation + 1) as u64
    }
}

fn step_generation(generation: u64) -> (g: u64)
    ensures
        g == next_generation(generation),
{
    if generation == u64::MAX {
        1
    } else {
        generation + 1
    }
}

impl Default for ProbeHealth {
    fn default() -> (h: Self)
        ensures
            h == (ProbeHealth { generation: 0, consecutive_failures: 0, offline_emitted: false }),
    {
        ProbeHealth { generation: 0, consecutive_failures: 0, offline_emitted: false }
    }
}

impl ProbeHealth {
    /// The state after a probe has set out.
    pub open spec fn begun(self) -> ProbeHealth {
        ProbeHealth { generation: next_generation(self.generation), ..self }
    }

    /// The state in which the peer is well.
    pub open spec fn well(self) -> ProbeHealth {
        ProbeHealth { consecutive_failures: 0, offline_emitted: false, ..self }
    }

    /// One failure more, as far as they are counted.
    pub open spec fn failures_after(self) -> int {
        if self.consecutive_failures < 255 {
            self.consecutive_failures + 1
        } else {
            255
        }
    }

    /// Whether one failure more makes the peer count as offline.
    pub open spec fn turns_offline(self) -> bool {
        self.failures_after() >= OFFLINE_AFTER_CONSECUTIVE_FAILURES && !self.offline_emitted
    }

    /// The state after one failure more.
    pub open spec fn worse(self) -> ProbeHealth {
        ProbeHealth {
            consecutive_failures: self.failures_after() as u8,
            offline_emitted: self.offline_emitted || self.turns_offline(),
            ..self
        }
    }

    /// A probe sets out. Gives the generation that its outcome is reported with.
    pub fn begin(&mut self) -> (generation: u64)
        ensures
            *final(self) == old(self).begun(),
            generation == final(self).generation,
    {
        self.generation = step_generation(self.generation);
        self.generation
    }

    /// A probe was answered. Says whether its outcome still counts.
    pub fn succeeded(&mut self, generation: u64) -> (current: bool)
        ensures
            current == (generation == old(self).generation),
            *final(self) == if current {
                old(self).well()
            } else {
                *old(self)
            },
    {
        if generation != self.generation {
            return false;
        }
        self.consecutive_failures = 0;
        self.offline_emitted = false;
        true
    }

    /// A probe failed. Says whether the peer counts as offline from now on.
    pub fn failed(&mut self, generation: u64) -> (offline: bool)
        ensures
            offline == (generation == old(self).generation && old(self).turns_offline()),
            *final(self) == if generation == old(self).generation {
                old(self).worse()
            } else {
                *old(self)
            },
    {
        if generation != self.generation {
            return false;
        }
        if self.consecutive_failures < 255 {
            self.consecutive_failures += 1;
        }
        if self.consecutive_failures < OFFLINE_AFTER_CONSECUTIVE_FAILURES || self.offline_emitted {
            return false;
        }
        self.offline_emitted = true;
        true
    }

    /// The peer has sent us a packet: what probes on their way find no longer counts.
    pub fn observed_inbound(&mut self)
        ensures
            *final(self) == old(self).begun().well(),
    {
        self.generation = step_generation(self.generation);
        self.consecutive_failures = 0;
        self.offline_emitted = false;
    }
}

/// A probe or a packet from the peer makes the outcome of every earlier probe stale.
pub proof fn law_later_events_outdate_earlier_probes(health: ProbeHealth)
    ensures
        health.begun().generation != health.generation,
        health.begun().well().generation != health.generation,
        health.begun().generation != 0,
{
}

/// A peer is reported offline once: not again before it was well.
pub proof fn law_offline_is_emitted_once(health: ProbeHealth)
    requires
        health.turns_offline(),
    ensures
        !health.worse().turns_offline(),
        !health.worse().begun().turns_offline(),
        !health.worse().well().turns_offline(),
{
}

/// Fewer than three failures in a row never withdraw a peer's presence.
pub proof fn law_few_failures_are_forgiven(health: ProbeHealth)
    requires
        health.consecutive_failures + 1 < OFFLINE_AFTER_CONSECUTIVE_FAILURES,
    ensures
        !health.turns_offline(),
{
}

// ---------------------------------------------------------------------------
// Packets
// ---------------------------------------------------------------------------

/// Whether a peer can be reached.
#[derive(Clone, Copy, Debug, PartialEq, Eq, Structural)]
pub enum Availability {
    Online,
    Offline,
}

/// A group call that a peer tells of.
#[derive(Debug, PartialEq, Eq)]
pub struct GroupCallAnnouncement {
    pub call_id: String,
    pub conversation_id: String,
    pub title: String,
    pub initiator: String,
    pub started_at_ms: i64,
    pub ended_at_ms: Option<i64>,
    pub participants: Vec<String>,
}

/// The contents of a `GroupCallAnnouncement`.
pub struct CallView {
    pub call_id: Seq<char>,
    pub conversation_id: Seq<char>,
    pub title: Seq<char>,
    pub initiator: Seq<char>,
    pub started_at_ms: i64,
    pub ended_at_ms: Option<i64>,
    pub participants: Seq<Seq<char>>,
}

impl View for GroupCallAnnouncement {
    type V = CallView;

    open spec fn view(&self) -> CallView {
        CallView {
            call_id: self.call_id@,
            conversation_id: self.conversation_id@,
            title: self.title@,
            initiator: self.initiator@,
            started_at_ms: self.started_at_ms,
            ended_at_ms: self.ended_at_ms,
            participants: texts(self.participants@),
        }
    }
}

impl Clone for GroupCallAnnouncement {
    fn clone(&self) -> (r: Self)
        ensures
            r@ == self@,
    {
        let participants = self.participants.clone();
        assert(texts(participants@) =~= texts(self.participants@));
        GroupCallAnnouncement {
            call_id: self.call_id.clone(),
            conversation_id: self.conversation_id.clone(),
            title: self.title.clone(),
            initiator: self.initiator.clone(),
            started_at_ms: self.started_at_ms,
            ended_at_ms: self.ended_at_ms,
            participants,
        }
    }
}

/// The contents of a list of calls.
pub open spec fn call_views(v: Seq<GroupCallAnnouncement>) -> Seq<CallView> {
    Seq::new(v.len(), |i: int| v[i]@)
}

/// Whether a call is told of at this time: while it goes on, and for a day after its end.
pub open spec fn advertisable(call: CallView, now_ms: int) -> bool {
    match call.ended_at_ms {
        None => true,
        Some(ended_at) => ended_at > now_ms || now_ms - ended_at < MISSED_GROUP_CALL_TTL_MS,
    }
}

/// Whether a call is told of at this time.
pub fn group_call_is_advertisable(call: &GroupCallAnnouncement, now_ms: i64) -> (r: bool)
    ensures
        r == advertisable(call@, now_ms as int),
{
    match call.ended_at_ms {
        None => true,
        Some(ended_at) => {
            if ended_at > now_ms {
                return true;
            }
            if ended_at < 0 && now_ms > i64::MAX + ended_at {
                return false;
            }
            now_ms - ended_at < MISSED_GROUP_CALL_TTL_MS
        },
    }
}

/// A call that has not ended is told of at any time; one that has expired stays expired.
pub proof fn law_advertisements_expire(call: CallView, now_ms: i64, later_ms: i64)
    requires
        now_ms <= later_ms,
    ensures
        call.ended_at_ms is None ==> advertisable(call, now_ms as int),
        !advertisable(call, now_ms as int) ==> !advertisable(call, later_ms as int),
{
}

/// The calls that are told of, in their order.
pub open spec fn advertised(calls: Seq<CallView>, now_ms: int) -> Seq<CallView>
    decreases calls.len(),
{
    if calls.len() == 0 {
        Seq::empty()
    } else {
        let rest = advertised(calls.drop_last(), now_ms);
        if advertisable(calls.last(), now_ms) {
            rest.push(calls.last())
        } else {
            rest
        }
    }
}

/// What peers tell each other.
#[derive(Debug)]
pub struct StatusPacket {
    pub protocol_version: u8,
    pub availability: Availability,
    pub client_version: String,
    pub active_group_calls: Vec<GroupCallAnnouncement>,
}

/// Why a packet is refused.
#[derive(Clone, Copy, Debug, PartialEq, Eq, Structural)]
pub enum StatusError {
    UnsupportedVersion(u8),
    VersionTooLong,
    CallsTooLarge,
}

impl StatusError {
    /// Why a packet is refused.
    pub fn reason(self) -> (s: String)
        ensures
            s@ == match self {
                StatusError::UnsupportedVersion(version) => {
                    "unsupported client status protocol version "@ + decimal(version as nat)
                },
                StatusError::VersionTooLong => "client version exceeds safety limit"@,
                StatusError::CallsTooLarge => "group call advertisement exceeds safety limit"@,
            },
    {
        match self {
            StatusError::UnsupportedVersion(version) => {
                let mut s: String = "unsupported client status protocol version ".to_owned();
                push_decimal(&mut s, version as u64);
                s
            },
            StatusError::VersionTooLong => "client version exceeds safety limit".to_owned(),
            StatusError::CallsTooLarge => {
                "group call advertisement exceeds safety limit".to_owned()
            },
        }
    }
}

/// Whether a text has at most this many bytes.
pub open spec fn fits(text: Seq<char>, bytes: int) -> bool {
    encode_utf8(text).len() <= bytes
}

/// Whether what a packet says of a call is within its limits.
pub open spec fn call_fits(call: CallView) -> bool {
    &&& fits(call.call_id, 160)
    &&& fits(call.conversation_id, 512)
    &&& fits(call.title, 256)
    &&& fits(call.initiator, 128)
    &&& call.participants.len() <= 64
    &&& forall|i: int| 0 <= i < call.participants.len() ==> fits(#[trigger] call.participants[i], 128)
}

/// What is wrong with a packet, the first fault found.
pub open spec fn status_fault(
    protocol_version: int,
    client_version: Seq<char>,
    calls: Seq<CallView>,
) -> Option<StatusError> {
    if protocol_version != 2 {
        Some(StatusError::UnsupportedVersion(protocol_version as u8))
    } else if !fits(client_version, 64) {
        Some(StatusError::VersionTooLong)
    } else if calls.len() > 32 || exists|i: int|
        0 <= i < calls.len() && !call_fits(#[trigger] calls[i]) {
        Some(StatusError::CallsTooLarge)
    } else {
        None
    }
}

fn text_fits(text: &str, bytes: usize) -> (r: bool)
    ensures
        r == fits(text@, bytes as int),
{
    text.as_bytes().len() <= bytes
}

fn check_call(call: &GroupCallAnnouncement) -> (r: bool)
    ensures
        r == call_fits(call@),
{
    if !text_fits(call.call_id.as_str(), 160) || !text_fits(call.conversation_id.as_str(), 512)
        || !text_fits(call.title.as_str(), 256) || !text_fits(call.initiator.as_str(), 128)
        || call.participants.len() > 64 {
        return false;
    }
    let mut i: usize = 0;
    while i < call.participants.len()
        invariant
            0 <= i <= call.participants@.len(),
            forall|j: int| 0 <= j < i ==> fits(#[trigger] call@.participants[j], 128),
        decreases call.participants@.len() - i,
    {
        if !text_fits(call.participants[i].as_str(), 128) {
            assert(!fits(call@.participants[i as int], 128));
            return false;
        }
        i += 1;
    }
    true
}

impl StatusPacket {
    /// What we tell a peer.
    pub fn new(availability: Availability, active_group_calls: Vec<GroupCallAnnouncement>) -> (p:
        StatusPacket)
        ensures
            p.protocol_version == 2,
            p.availability == availability,
            p.client_version@ == APP_VERSION@,
            p.active_group_calls == active_group_calls,
    {
        StatusPacket {
            protocol_version: 2,
            availability,
            client_version: APP_VERSION.to_owned(),
            active_group_calls,
        }
    }

    /// Checks a packet that came from a peer.
    pub fn validate(&self) -> (r: Result<(), StatusError>)
        ensures
            match r {
                Ok(_) => status_fault(
                    self.protocol_version as int,
                    self.client_version@,
                    call_views(self.active_group_calls@),
                ) is None,
                Err(e) => status_fault(
                    self.protocol_version as int,
                    self.client_version@,
                    call_views(self.active_group_calls@),
                ) == Some(e),
            },
    {
        if self.protocol_version != 2 {
            return Err(StatusError::UnsupportedVersion(self.protocol_version));
        }
        if !text_fits(self.client_version.as_str(), 64) {
            return Err(StatusError::VersionTooLong);
        }
        if self.active_group_calls.len() > 32 {
            return Err(StatusError::CallsTooLarge);
        }
        let ghost calls = call_views(self.active_group_calls@);
        let mut i: usize = 0;
        while i < self.active_group_calls.len()
            invariant
                0 <= i <= self.active_group_calls@.len(),
                calls == call_views(self.active_group_calls@),
                calls.len() <= 32,
                self.protocol_version == 2,
                fits(self.client_version@, 64),
                forall|j: int| 0 <= j < i ==> call_fits(#[trigger] calls[j]),
            decreases self.active_group_calls@.len() - i,
        {
            if !check_call(&self.active_group_calls[i]) {
                assert(!call_fits(calls[i as int]));
                return Err(StatusError::CallsTooLarge);
            }
            i += 1;
        }
        Ok(())
    }
}

// ---------------------------------------------------------------------------
// The protocol's state
// ---------------------------------------------------------------------------

/// News of a peer.
#[derive(Debug)]
pub struct StatusUpdate {
    pub peer: NodeId,
    pub availability: Availability,
    pub client_version: Option<String>,
    pub active_group_calls: Vec<GroupCallAnnouncement>,
}

/// Whom we exchange presence with, what we tell, and how probes have gone.
pub struct ClientStatusProtocol {
    pub allowed_peers: Table<NodeId, ()>,
    pub active_group_calls: Vec<GroupCallAnnouncement>,
    pub probe_health: Table<NodeId, ProbeHealth>,
}

/// How the probes of a peer have gone so far.
pub open spec fn health_of(health: Map<Seq<u8>, ProbeHealth>, peer: Seq<u8>) -> ProbeHealth {
    if health.contains_key(peer) {
        health[peer]
    } else {
        ProbeHealth { generation: 0, consecutive_failures: 0, offline_emitted: false }
    }
}

impl ClientStatusProtocol {
    /// The tables are in order.
    pub open spec fn wf(self) -> bool {
        self.allowed_peers.wf() && self.probe_health.wf()
    }

    /// No friends and no calls yet.
    pub fn new() -> (p: ClientStatusProtocol)
        ensures
            p.wf(),
            p.allowed_peers@ == Map::<Seq<u8>, ()>::empty(),
            p.probe_health@ == Map::<Seq<u8>, ProbeHealth>::empty(),
            p.active_group_calls@.len() == 0,
    {
        ClientStatusProtocol {
            allowed_peers: Table::new(),
            active_group_calls: Vec::new(),
            probe_health: Table::new(),
        }
    }

    /// Replaces the calls that we tell of.
    pub fn set_active_group_calls(&mut self, calls: Vec<GroupCallAnnouncement>)
        requires
            old(self).wf(),
        ensures
            final(self).wf(),
            final(self).active_group_calls == calls,
            final(self).allowed_peers == old(self).allowed_peers,
            final(self).probe_health == old(self).probe_health,
    {
        self.active_group_calls = calls;
    }

    /// The calls that we tell of at this time.
    pub fn active_group_calls(&self, now_ms: i64) -> (calls: Vec<GroupCallAnnouncement>)
        ensures
            call_views(calls@) == advertised(call_views(self.active_group_calls@), now_ms as int),
    {
        let ghost all = call_views(self.active_group_calls@);
        let mut calls: Vec<GroupCallAnnouncement> = Vec::new();
        let mut i: usize = 0;
        assert(call_views(calls@) =~= Seq::empty());
        while i < self.active_group_calls.len()
            invariant
                0 <= i <= self.active_group_calls@.len(),
                all == call_views(self.active_group_calls@),
                call_views(calls@) == advertised(all.take(i as int), now_ms as int),
            decreases self.active_group_calls@.len() - i,
        {
            let ghost before = call_views(calls@);
            proof {
                assert(all.take(i as int + 1).drop_last() =~= all.take(i as int));
            }
            if group_call_is_advertisable(&self.active_group_calls[i], now_ms) {
                calls.push(self.active_group_calls[i].clone());
                assert(call_views(calls@) =~= before.push(all[i as int]));
            }
            i += 1;
        }
        assert(all.take(self.active_group_calls@.len() as int) =~= all);
        calls
    }

    /// Replaces the peers that we exchange presence with.
    pub fn replace_peers(&mut self, peers: &Vec<NodeId>)
        requires
            old(self).wf(),
        ensures
            final(self).wf(),
            final(self).active_group_calls == old(self).active_group_calls,
            final(self).probe_health == old(self).probe_health,
            forall|peer: Seq<u8>| #[trigger]
                final(self).allowed_peers@.contains_key(peer) <==> keys_of(peers@).contains(peer),
    {
        let mut allowed: Table<NodeId, ()> = Table::new();
        let mut i: usize = 0;
        let ghost keys = keys_of(peers@);
        while i < peers.len()
            invariant
                0 <= i <= peers@.len(),
                keys == keys_of(peers@),
                allowed.wf(),
                forall|peer: Seq<u8>| #[trigger]
                    allowed@.contains_key(peer) <==> keys.take(i as int).contains(peer),
            decreases peers@.len() - i,
        {
            allowed.insert(peers[i], ());
            proof {
                let next = keys.take(i as int + 1);
                assert(next =~= keys.take(i as int).push(keys[i as int]));
                assert forall|peer: Seq<u8>| #[trigger] allowed@.contains_key(peer)
                    <==> next.contains(peer) by {
                    if keys.take(i as int).contains(peer) {
                        let j = choose|j: int|
                            0 <= j < keys.take(i as int).len() && keys.take(i as int)[j] == peer;
                        assert(next[j] == peer);
                    }
                    if peer == keys[i as int] {
                        assert(next[i as int] == peer);
                    }
                }
            }
            i += 1;
        }
        assert(keys.take(peers@.len() as int) =~= keys);
        self.allowed_peers = allowed;
    }

    /// Whether we exchange presence with this peer.
    pub fn peer_is_allowed(&self, peer: &NodeId) -> (r: bool)
        requires
            self.wf(),
        ensures
            r == self.allowed_peers@.contains_key(peer@),
    {
        self.allowed_peers.has(peer)
    }

    /// The peers that we exchange presence with, in order.
    pub fn peers(&self) -> (peers: Vec<NodeId>)
        requires
            self.wf(),
        ensures
            keys_of(peers@) == self.allowed_peers.names(),
    {
        let mut peers: Vec<NodeId> = Vec::new();
        let mut i: usize = 0;
        while i < self.allowed_peers.entries.len()
            invariant
                0 <= i <= self.allowed_peers.entries@.len(),
                peers@.len() == i,
                forall|j: int| 0 <= j < i ==> #[trigger] peers@[j]@ == self.allowed_peers.names()[j],
            decreases self.allowed_peers.entries@.len() - i,
        {
            peers.push(self.allowed_peers.entries[i].0);
            i += 1;
        }
        assert(keys_of(peers@) =~= self.allowed_peers.names());
        peers
    }

    fn health(&self, peer: &NodeId) -> (h: ProbeHealth)
        requires
            self.wf(),
        ensures
            h == health_of(self.probe_health@, peer@),
    {
        match self.probe_health.get(peer) {
            Some(health) => *health,
            None => ProbeHealth { generation: 0, consecutive_failures: 0, offline_emitted: false },
        }
    }

    /// A probe to a peer sets out. Gives the generation that its outcome is reported with.
    pub fn announce_online(&mut self, peer: NodeId) -> (generation: u64)
        requires
            old(self).wf(),
        ensures
            final(self).wf(),
            final(self).allowed_peers == old(self).allowed_peers,
            final(self).active_group_calls == old(self).active_group_calls,
            final(self).probe_health@ == old(self).probe_health@.insert(
                peer@,
                health_of(old(self).probe_health@, peer@).begun(),
            ),
            generation == health_of(old(self).probe_health@, peer@).begun().generation,
    {
        let mut health = self.health(&peer);
        let generation: u64 = health.begin();
        self.probe_health.insert(peer, health);
        generation
    }

    /// A probe was answered with a valid packet. Gives the news, unless the answer is stale.
    pub fn probe_succeeded(&mut self, peer: NodeId, generation: u64, packet: StatusPacket) -> (r:
        Option<StatusUpdate>)
        requires
            old(self).wf(),
        ensures
            final(self).wf(),
            final(self).allowed_peers == old(self).allowed_peers,
            final(self).active_group_calls == old(self).active_group_calls,
            ({
                let health = health_of(old(self).probe_health@, peer@);
                let current = generation == health.generation;
                &&& final(self).probe_health@ == old(self).probe_health@.insert(
                    peer@,
                    if current {
                        health.well()
                    } else {
                        health
                    },
                )
                &&& match r {
                    Some(update) => current && update.peer@ == peer@ && update.availability
                        == packet.availability && opt_text(update.client_version) == Some(
                        packet.client_version@,
                    ) && update.active_group_calls == packet.active_group_calls,
                    None => !current,
                }
            }),
    {
        let mut health = self.health(&peer);
        let current: bool = health.succeeded(generation);
        self.probe_health.insert(peer, health);
        if !current {
            return None;
        }
        Some(
            StatusUpdate {
                peer,
                availability: packet.availability,
                client_version: Some(packet.client_version),
                active_group_calls: packet.active_group_calls,
            },
        )
    }

    /// A probe failed. Gives the news that the peer is offline, where that is now so.
    pub fn probe_failed(&mut self, peer: NodeId, generation: u64) -> (r: Option<StatusUpdate>)
        requires
            old(self).wf(),
        ensures
            final(self).wf(),
            final(self).allowed_peers == old(self).allowed_peers,
            final(self).active_group_calls == old(self).active_group_calls,
            ({
                let health = health_of(old(self).probe_health@, peer@);
                let current = generation == health.generation;
                &&& final(self).probe_health@ == old(self).probe_health@.insert(
                    peer@,
                    if current {
                        health.worse()
                    } else {
                        health
                    },
                )
                &&& match r {
                    Some(update) => current && health.turns_offline() && update.peer@ == peer@
                        && update.availability == Availability::Offline && update.client_version
                        is None && update.active_group_calls@.len() == 0,
                    None => !(current && health.turns_offline()),
                }
            }),
    {
        let mut health = self.health(&peer);
        let offline: bool = health.failed(generation);
        self.probe_health.insert(peer, health);
        if !offline {
            return None;
        }
        Some(
            StatusUpdate {
                peer,
                availability: Availability::Offline,
                client_version: None,
                active_group_calls: Vec::new(),
            },
        )
    }

    /// A packet came in from an allowed peer. Gives the news and what we answer, or says why the
    /// packet is refused.
    pub fn accept(&mut self, peer: NodeId, packet: StatusPacket, now_ms: i64) -> (r: Result<
        (StatusUpdate, StatusPacket),
        StatusError,
    >)
        requires
            old(self).wf(),
        ensures
            final(self).wf(),
            final(self).allowed_peers == old(self).allowed_peers,
            final(self).active_group_calls == old(self).active_group_calls,
            match r {
                Ok((update, answer)) => status_fault(
                    packet.protocol_version as int,
                    packet.client_version@,
                    call_views(packet.active_group_calls@),
                ) is None && final(self).probe_health@ == old(self).probe_health@.insert(
                    peer@,
                    health_of(old(self).probe_health@, peer@).begun().well(),
                ) && update.peer@ == peer@ && update.availability == packet.availability
                    && opt_text(update.client_version) == Some(packet.client_version@)
                    && update.active_group_calls == packet.active_group_calls
                    && answer.protocol_version == 2 && answer.availability == Availability::Online
                    && answer.client_version@ == APP_VERSION@ && call_views(
                    answer.active_group_calls@,
                ) == advertised(call_views(old(self).active_group_calls@), now_ms as int),
                Err(e) => status_fault(
                    packet.protocol_version as int,
                    packet.client_version@,
                    call_views(packet.active_group_calls@),
                ) == Some(e) && final(self).probe_health == old(self).probe_health,
            },
    {
        match packet.validate() {
            Ok(_) => {},
            Err(e) => {
                return Err(e);
            },
        }
        let mut health = self.health(&peer);
        health.observed_inbound();
        self.probe_health.insert(peer, health);
        let answer = StatusPacket::new(Availability::Online, self.active_group_calls(now_ms));
        let update = StatusUpdate {
            peer,
            availability: packet.availability,
            client_version: Some(packet.client_version),
            active_group_calls: packet.active_group_calls,
        };
        Ok((update, answer))
    }
}

/// A peer that was well is reported offline with the third failure in a row, and not before.
pub proof fn law_third_failure_withdraws_presence(health: ProbeHealth)
    requires
        health.consecutive_failures == 0,
        !health.offline_emitted,
    ensures
        !health.turns_offline(),
        !health.worse().turns_offline(),
        health.worse().worse().turns_offline(),
        health.worse().worse().generation == health.generation,
        1 <= health.failures_after() <= 255,
{
}

/// An answer forgives every failure before it, and the peer can be reported offline anew.
pub proof fn law_answers_forgive_failures(health: ProbeHealth)
    ensures
        health.well().consecutive_failures == 0,
        !health.well().offline_emitted,
        health.well().generation == health.generation,
        health.well().worse().worse().turns_offline(),
{
}

/// We tell of just those calls that go on or have ended less than a day ago.
pub proof fn law_calls_are_told_for_a_day(calls: Seq<CallView>, now_ms: i64, call: CallView)
    ensures
        advertised(calls, now_ms as int).contains(call) <==> calls.contains(call) && (
        match call.ended_at_ms {
            None => true,
            Some(ended_at) => now_ms < ended_at + 86_400_000,
        }),
    decreases calls.len(),
{
    if calls.len() > 0 {
        let rest = advertised(calls.drop_last(), now_ms as int);
        law_calls_are_told_for_a_day(calls.drop_last(), now_ms, call);
        lemma_held_or_last(calls, call);
        lemma_held_after_push(rest, calls.last(), call);
    }
}

/// A packet is refused exactly if it is of another version than 2, tells a client version of
/// more than 64 bytes, tells of more than 32 calls, or of one that is too large.
pub proof fn law_packets_are_refused_for_a_reason(
    protocol_version: u8,
    client_version: Seq<char>,
    calls: Seq<CallView>,
)
    ensures
        ({
            let fault = status_fault(protocol_version as int, client_version, calls);
            let short = encode_utf8(client_version).len() <= 64;
            let small = calls.len() <= 32 && forall|i: int|
                0 <= i < calls.len() ==> call_fits(#[trigger] calls[i]);
            &&& fault is None <==> protocol_version == 2 && short && small
            &&& fault == Some(StatusError::UnsupportedVersion(protocol_version))
                <==> protocol_version != 2
            &&& fault == Some(StatusError::VersionTooLong) <==> protocol_version == 2 && !short
            &&& fault == Some(StatusError::CallsTooLarge) <==> protocol_version == 2 && short
                && !small
        }),
{
}

/// What is told of a call stays small: each of its texts is bounded, and so is their number.
pub proof fn law_told_calls_are_small(call: CallView, i: int)
    ensures
        call_fits(call) ==> encode_utf8(call.call_id).len() <= 160 && encode_utf8(
            call.conversation_id,
        ).len() <= 512 && encode_utf8(call.title).len() <= 256 && encode_utf8(call.initiator).len()
            <= 128 && call.participants.len() <= 64,
        call_fits(call) && 0 <= i < call.participants.len() ==> encode_utf8(
            call.participants[i],
        ).len() <= 128,
        encode_utf8(call.call_id).len() <= 160 && encode_utf8(call.conversation_id).len() <= 512
            && encode_utf8(call.title).len() <= 256 && encode_utf8(call.initiator).len() <= 128
            && call.participants.len() <= 64 && (forall|k: int|
            0 <= k < call.participants.len() ==> encode_utf8(
                #[trigger] call.participants[k],
            ).len() <= 128) ==> call_fits(call),
{
}

/// Nothing is held against a peer that was not probed yet, and what is known of one does not
/// change with what is known of another.
pub proof fn law_peers_are_probed_one_by_one(
    health: Map<Seq<u8>, ProbeHealth>,
    peer: Seq<u8>,
    other: Seq<u8>,
    changed: ProbeHealth,
)
    requires
        other != peer,
    ensures
        !health.contains_key(peer) ==> health_of(health, peer).consecutive_failures == 0
            && !health_of(health, peer).offline_emitted && health_of(health, peer).generation == 0,
        health_of(health.insert(peer, changed), peer) == changed,
        health_of(health.insert(peer, changed), other) == health_of(health, other),
{
}

/// However often probes fail, the count of failures stays within its bounds.
pub proof fn law_failures_are_counted_to_their_bound(health: ProbeHealth)
    ensures
        health.consecutive_failures < 255 ==> health.worse().consecutive_failures
            == health.consecutive_failures + 1,
        health.consecutive_failures == 255 ==> health.worse().consecutive_failures == 255,
        health.worse().generation == health.generation,
        health.offline_emitted ==> health.worse().offline_emitted,
{
}

} // verus!
