//! Warm connections to peers, kept for bursts of messages.
use vstd::prelude::*;
use crate::node::NodeId;
use crate::table::Table;
use crate::text::{bytes_lt, lemma_bytes_lt_irreflexive};

verus! {

/// How long an unused connection stays warm, in milliseconds.
pub const SESSION_IDLE_MS: u64 = 60_000;

/// How many connections are kept warm.
pub const SESSION_POOL_CAP: usize = 8;

/// A warm connection, named by a handle, and when it was last used.
#[derive(Clone, Copy, Debug, PartialEq, Eq, Structural)]
pub struct HotSession {
    pub handle: u64,
    pub last_used: u64,
}

/// The warm connections, at most one for each peer.
pub struct SessionPool {
    pub sessions: Table<NodeId, HotSession>,
}

/// Whether a connection is still warm.
pub open spec fn is_warm(session: HotSession, now: int) -> bool {
    now - session.last_used < SESSION_IDLE_MS
}

/// The connections that are still warm.
pub open spec fn warm(pool: Map<Seq<u8>, HotSession>, now: int) -> Map<Seq<u8>, HotSession> {
    Map::new(
        |peer: Seq<u8>| pool.contains_key(peer) && is_warm(pool[peer], now),
        |peer: Seq<u8>| pool[peer],
    )
}

/// Whether `peer` has been unused for longest; of several, the one with the least key.
pub open spec fn is_oldest(pool: Map<Seq<u8>, HotSession>, peer: Seq<u8>) -> bool {
    pool.contains_key(peer) && forall|other: Seq<u8>| #[trigger]
        pool.contains_key(other) && other != peer ==> pool[peer].last_used < pool[other].last_used
            || (pool[peer].last_used == pool[other].last_used && bytes_lt(peer, other))
}

/// The peer that has been unused for longest.
pub open spec fn oldest(pool: Map<Seq<u8>, HotSession>) -> Seq<u8> {
    choose|peer: Seq<u8>| is_oldest(pool, peer)
}

/// The pool once a connection to `peer` has been added.
pub open spec fn added(
    pool: Map<Seq<u8>, HotSession>,
    peer: Seq<u8>,
    handle: u64,
    now: u64,
) -> Map<Seq<u8>, HotSession> {
    let kept = warm(pool, now as int);
    if kept.contains_key(peer) {
        kept.insert(peer, HotSession { handle: kept[peer].handle, last_used: now })
    } else {
        let all = kept.insert(peer, HotSession { handle, last_used: now });
        if all.dom().len() > SESSION_POOL_CAP {
            all.remove(oldest(all))
        } else {
            all
        }
    }
}

impl View for SessionPool {
    type V = Map<Seq<u8>, HotSession>;

    open spec fn view(&self) -> Map<Seq<u8>, HotSession> {
        self.sessions@
    }
}

impl SessionPool {
    /// The table is in order and no larger than allowed.
    pub open spec fn wf(self) -> bool {
        self.sessions.wf() && self.sessions.entries@.len() <= SESSION_POOL_CAP
    }

    /// An empty pool.
    pub fn new() -> (p: SessionPool)
        ensures
            p.wf(),
            p@ == Map::<Seq<u8>, HotSession>::empty(),
    {
        SessionPool { sessions: Table::new() }
    }

    /// Drops the connections that have been idle for too long.
    pub fn sweep(&mut self, now: u64)
        requires
            old(self).wf(),
        ensures
            final(self).wf(),
            final(self)@ == warm(old(self)@, now as int),
    {
        let ghost before = *self;
        let mut kept: Table<NodeId, HotSession> = Table::new();
        let mut i: usize = 0;
        while i < self.sessions.entries.len()
            invariant
                0 <= i <= self.sessions.entries@.len(),
                *self == before,
                self.wf(),
                kept.wf(),
                forall|p: Seq<u8>| #[trigger]
                    kept@.contains_key(p) <==> self.sessions.names().take(i as int).contains(p)
                        && warm(before@, now as int).contains_key(p),
                forall|p: Seq<u8>| #[trigger] kept@.contains_key(p) ==> kept@[p] == before@[p],
            decreases self.sessions.entries@.len() - i,
        {
            let ghost names = self.sessions.names();
            proof {
                self.sessions.lemma_entry(i as int);
            }
            let session = self.sessions.entries[i].1;
            if now < session.last_used || now - session.last_used < SESSION_IDLE_MS {
                kept.insert(self.sessions.entries[i].0, session);
            }
            proof {
                let next = names.take(i as int + 1);
                assert(next =~= names.take(i as int).push(names[i as int]));
                assert forall|p: Seq<u8>| #[trigger] kept@.contains_key(p) <==> next.contains(p)
                    && warm(before@, now as int).contains_key(p) by {
                    if names.take(i as int).contains(p) {
                        let j = choose|j: int|
                            0 <= j < names.take(i as int).len() && names.take(i as int)[j] == p;
                        assert(next[j] == p);
                    }
                    if p == names[i as int] {
                        assert(next[i as int] == p);
                    }
                }
            }
            i += 1;
        }
        proof {
            assert(self.sessions.names().take(self.sessions.entries@.len() as int)
                =~= self.sessions.names());
            assert(kept@ =~= warm(before@, now as int)) by {
                assert forall|p: Seq<u8>| kept@.contains_key(p) <==> warm(
                    before@,
                    now as int,
                ).contains_key(p) by {
                    assert(kept@.contains_key(p) <==> self.sessions.names().contains(p) && warm(
                        before@,
                        now as int,
                    ).contains_key(p));
                }
            }
            kept.lemma_size();
            before.sessions.lemma_size();
            assert(kept@.dom().subset_of(before@.dom()));
            vstd::set_lib::lemma_len_subset(kept@.dom(), before@.dom());
        }
        self.sessions = kept;
    }

    /// The peer that has been unused for longest.
    fn find_oldest(&self) -> (peer: NodeId)
        requires
            self.sessions.wf(),
            self.sessions.entries@.len() > 0,
        ensures
            is_oldest(self@, peer@),
            peer@ == oldest(self@),
    {
        let mut best: usize = 0;
        let mut i: usize = 1;
        while i < self.sessions.entries.len()
            invariant
                1 <= i <= self.sessions.entries@.len(),
                0 <= best < i,
                self.sessions.wf(),
                forall|j: int|
                    0 <= j < i ==> self.sessions.entries@[best as int].1.last_used < (
                    #[trigger] self.sessions.entries@[j]).1.last_used || (
                    self.sessions.entries@[best as int].1.last_used
                        == self.sessions.entries@[j].1.last_used && best <= j),
            decreases self.sessions.entries@.len() - i,
        {
            if self.sessions.entries[i].1.last_used < self.sessions.entries[best].1.last_used {
                best = i;
            }
            i += 1;
        }
        let peer = self.sessions.entries[best].0;
        proof {
            self.sessions.lemma_entry(best as int);
            assert forall|other: Seq<u8>| #[trigger]
                self@.contains_key(other) && other != peer@ implies self@[peer@].last_used
                < self@[other].last_used || (self@[peer@].last_used == self@[other].last_used
                && bytes_lt(peer@, other)) by {
                let j = self.sessions.lemma_held(other);
                if best < j {
                    assert(bytes_lt(self.sessions.names()[best as int], self.sessions.names()[j]));
                }
            }
            lemma_oldest_unique(self@, peer@);
        }
        peer
    }

    /// Adds a connection to a peer. A warm one that is there already is kept instead; beyond the
    /// allowed number, the one unused for longest goes.
    pub fn insert(&mut self, peer: NodeId, handle: u64, now: u64)
        requires
            old(self).wf(),
        ensures
            final(self).wf(),
            final(self)@ == added(old(self)@, peer@, handle, now),
    {
        self.sweep(now);
        let ghost kept = self@;
        match self.sessions.get(&peer) {
            Some(session) => {
                let current: HotSession = *session;
                proof {
                    self.sessions.lemma_size();
                    assert(kept.insert(
                        peer@,
                        HotSession { handle: current.handle, last_used: now },
                    ).dom() =~= kept.dom());
                }
                self.sessions.insert(peer, HotSession { handle: current.handle, last_used: now });
                proof {
                    self.sessions.lemma_size();
                }
            },
            None => {
                proof {
                    self.sessions.lemma_size();
                }
                self.sessions.insert(peer, HotSession { handle, last_used: now });
                proof {
                    self.sessions.lemma_size();
                }
                if self.sessions.len() > SESSION_POOL_CAP {
                    let gone = self.find_oldest();
                    self.sessions.remove(&gone);
                    proof {
                        self.sessions.lemma_size();
                    }
                }
            },
        }
    }

    /// Notes that the connection to a peer was used.
    pub fn touch(&mut self, peer: NodeId, now: u64)
        requires
            old(self).wf(),
        ensures
            final(self).wf(),
            final(self)@ == if old(self)@.contains_key(peer@) {
                old(self)@.insert(
                    peer@,
                    HotSession { handle: old(self)@[peer@].handle, last_used: now },
                )
            } else {
                old(self)@
            },
    {
        let ghost before = self@;
        match self.sessions.get(&peer) {
            Some(session) => {
                let current: HotSession = *session;
                proof {
                    self.sessions.lemma_size();
                    assert(before.insert(
                        peer@,
                        HotSession { handle: current.handle, last_used: now },
                    ).dom() =~= before.dom());
                }
                self.sessions.insert(peer, HotSession { handle: current.handle, last_used: now });
                proof {
                    self.sessions.lemma_size();
                }
            },
            None => {},
        }
    }

    /// The warm connection to a peer.
    pub fn get(&mut self, peer: NodeId, now: u64) -> (r: Option<u64>)
        requires
            old(self).wf(),
        ensures
            final(self).wf(),
            final(self)@ == warm(old(self)@, now as int),
            r == if old(self)@.contains_key(peer@) && is_warm(old(self)@[peer@], now as int) {
                Some(old(self)@[peer@].handle)
            } else {
                None
            },
    {
        self.sweep(now);
        match self.sessions.get(&peer) {
            Some(session) => Some(session.handle),
            None => None,
        }
    }

    /// Forgets the connection to a peer without closing it.
    pub fn forget(&mut self, peer: NodeId)
        requires
            old(self).wf(),
        ensures
            final(self).wf(),
            final(self)@ == old(self)@.remove(peer@),
    {
        proof {
            self.sessions.lemma_size();
        }
        self.sessions.remove(&peer);
        proof {
            self.sessions.lemma_size();
        }
    }
}

proof fn lemma_oldest_unique(pool: Map<Seq<u8>, HotSession>, peer: Seq<u8>)
    requires
        is_oldest(pool, peer),
    ensures
        oldest(pool) == peer,
{
    let other = oldest(pool);
    assert(is_oldest(pool, other));
    if other != peer {
        assert(pool.contains_key(other) && pool.contains_key(peer));
        lemma_bytes_lt_irreflexive(peer);
        if bytes_lt(peer, other) && bytes_lt(other, peer) {
            crate::text::lemma_bytes_lt_transitive(peer, other, peer);
        }
    }
}

/// The warm connection to a peer survives another one being offered for the same peer.
pub proof fn law_warm_session_is_kept(
    pool: Map<Seq<u8>, HotSession>,
    peer: Seq<u8>,
    handle: u64,
    now: u64,
)
    requires
        pool.contains_key(peer),
        is_warm(pool[peer], now as int),
    ensures
        added(pool, peer, handle, now).contains_key(peer),
        added(pool, peer, handle, now)[peer].handle == pool[peer].handle,
        added(pool, peer, handle, now)[peer].last_used == now,
{
}

/// What is sent to a peer goes over a warm connection first; a failure there forgets the
/// connection and a fresh one is dialled.
#[derive(Clone, Copy, Debug, PartialEq, Eq, Structural)]
pub enum SendStep {
    /// Send over the connection with this handle, within the short time for a warm one.
    Reuse(u64),
    /// Connect, and send over the fresh connection within the longer time.
    Dial,
    Done,
    Failed,
}

/// What became of a step.
#[derive(Clone, Copy, Debug, PartialEq, Eq, Structural)]
pub enum StepOutcome {
    Sent,
    /// The connection did not take the packet.
    Refused,
    /// The connection did not take the packet in time.
    TimedOut,
    /// There was no connection to send over.
    NotConnected,
}

/// How to begin sending to a peer.
pub fn begin_send(pool: &mut SessionPool, peer: NodeId, now: u64) -> (step: SendStep)
    requires
        old(pool).wf(),
    ensures
        final(pool).wf(),
        final(pool)@ == warm(old(pool)@, now as int),
        step == if old(pool)@.contains_key(peer@) && is_warm(old(pool)@[peer@], now as int) {
            SendStep::Reuse(old(pool)@[peer@].handle)
        } else {
            SendStep::Dial
        },
{
    match pool.get(peer, now) {
        Some(handle) => SendStep::Reuse(handle),
        None => SendStep::Dial,
    }
}

/// How to go on after a step: a warm connection that failed is replaced by a fresh one, and
/// what fails on a fresh one has failed.
pub fn next_send(
    pool: &mut SessionPool,
    peer: NodeId,
    step: SendStep,
    outcome: StepOutcome,
    now: u64,
) -> (next: SendStep)
    requires
        old(pool).wf(),
        step is Reuse || step is Dial,
    ensures
        final(pool).wf(),
        next == match (step, outcome) {
            (_, StepOutcome::Sent) => SendStep::Done,
            (SendStep::Reuse(_), _) => SendStep::Dial,
            _ => SendStep::Failed,
        },
        outcome == StepOutcome::Sent ==> final(pool)@ == if old(pool)@.contains_key(peer@) {
            old(pool)@.insert(
                peer@,
                HotSession { handle: old(pool)@[peer@].handle, last_used: now },
            )
        } else {
            old(pool)@
        },
        outcome == StepOutcome::NotConnected ==> final(pool)@ == old(pool)@,
        outcome == StepOutcome::Refused || outcome == StepOutcome::TimedOut ==> final(pool)@ == old(
            pool,
        )@.remove(peer@),
{
    match outcome {
        StepOutcome::Sent => {
            pool.touch(peer, now);
            SendStep::Done
        },
        StepOutcome::NotConnected => match step {
            SendStep::Reuse(_) => SendStep::Dial,
            _ => SendStep::Failed,
        },
        _ => {
            pool.forget(peer);
            match step {
                SendStep::Reuse(_) => SendStep::Dial,
                _ => SendStep::Failed,
            }
        },
    }
}

/// Whether one of the peers that a wake-up was sent to has taken it.
pub fn any_reached(answers: &Vec<bool>) -> (r: bool)
    ensures
        r == answers@.contains(true),
{
    let mut i: usize = 0;
    while i < answers.len()
        invariant
            0 <= i <= answers@.len(),
            forall|j: int| 0 <= j < i ==> !#[trigger] answers@[j],
        decreases answers@.len() - i,
    {
        if answers[i] {
            assert(answers@[i as int]);
            return true;
        }
        i += 1;
    }
    false
}

/// A connection is warm for less than a minute after its last use, and keeps its handle; sweeping
/// drops just those that are not.
pub proof fn law_sessions_last_a_minute(pool: Map<Seq<u8>, HotSession>, now: u64, peer: Seq<u8>)
    ensures
        warm(pool, now as int).contains_key(peer) <==> pool.contains_key(peer) && now
            < pool[peer].last_used + 60_000,
        warm(pool, now as int).contains_key(peer) ==> warm(pool, now as int)[peer] == pool[peer],
{
}

/// A connection that is added is there under its handle as just used, and while fewer than eight
/// are warm, no warm one leaves for it.
pub proof fn law_added_session_is_there(
    pool: Map<Seq<u8>, HotSession>,
    peer: Seq<u8>,
    handle: u64,
    now: u64,
    other: Seq<u8>,
)
    requires
        other != peer,
        warm(pool, now as int).dom().finite(),
        warm(pool, now as int).dom().len() < 8,
        !warm(pool, now as int).contains_key(peer),
    ensures
        ({
            let after = added(pool, peer, handle, now);
            &&& after.contains_key(peer) && after[peer].handle == handle && after[peer].last_used
                == now
            &&& after.contains_key(other) <==> pool.contains_key(other) && now
                < pool[other].last_used + 60_000
            &&& after.contains_key(other) ==> after[other] == pool[other]
        }),
{
}

/// From a full pool the connection that was unused for longest leaves, and no other.
pub proof fn law_oldest_session_leaves(
    pool: Map<Seq<u8>, HotSession>,
    peer: Seq<u8>,
    handle: u64,
    now: u64,
    gone: Seq<u8>,
)
    requires
        pool.dom().finite(),
        pool.dom().len() == 8,
        !pool.contains_key(peer),
        forall|p: Seq<u8>| #[trigger] pool.contains_key(p) ==> now < pool[p].last_used + 60_000,
        pool.contains_key(gone),
        pool[gone].last_used < now,
        forall|p: Seq<u8>| #[trigger]
            pool.contains_key(p) && p != gone ==> pool[gone].last_used < pool[p].last_used,
    ensures
        added(pool, peer, handle, now) == pool.remove(gone).insert(
            peer,
            HotSession { handle, last_used: now },
        ),
{
    let kept = warm(pool, now as int);
    assert(kept =~= pool);
    let all = kept.insert(peer, HotSession { handle, last_used: now });
    assert(is_oldest(all, gone));
    let found = oldest(all);
    assert(is_oldest(all, found));
    assert(found == gone) by {
        if found != gone {
            assert(all.contains_key(gone));
            assert(all.contains_key(found));
        }
    }
    assert(added(pool, peer, handle, now) =~= pool.remove(gone).insert(
        peer,
        HotSession { handle, last_used: now },
    ));
}

} // verus!
