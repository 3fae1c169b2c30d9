//! The delivery of our messages: which still wait for a receipt, when they are tried again, and
//! what the user is told.
use vstd::prelude::*;
use vstd::utf8::encode_utf8;
use crate::conversation::{
    ascending, is_member, lemma_ascending_unique, ChatConversation, ConversationView,
    StoredConversation,
};
use crate::digits::{decimal, hex_lower, push_decimal};
use crate::message::{opt_text, ChatMessage, MessageView};
use crate::node::NodeId;
use crate::table::Table;
use crate::text::{lemma_held_after_push, lemma_held_or_last, same_text, text_lt, texts};
use crate::timeline::message_views;

verus! {

/// How long after a message was sent its delivery is first looked after, in milliseconds.
pub const FIRST_RETRY_MS: u64 = 400;

/// The latest reading of the clock at which a retry can still be scheduled.
pub const LAST_INSTANT: u64 = 0xffff_ffff_ffff_0000;

// ---------------------------------------------------------------------------
// Delays
// ---------------------------------------------------------------------------

/// The milliseconds between attempts, before the conversation's own share is added.
pub open spec fn base_delay(attempts: int) -> int {
    if attempts <= 1 {
        400
    } else if attempts == 2 {
        700
    } else if attempts == 3 {
        1000
    } else if attempts <= 10 {
        1500
    } else {
        3000
    }
}

/// The bytes of a name folded into one number, starting from `start`.
pub open spec fn folded(start: nat, bytes: Seq<u8>) -> nat
    decreases bytes.len(),
{
    if bytes.len() == 0 {
        start
    } else {
        (folded(start, bytes.drop_last()) * 31 + bytes.last() as nat) % 0x1_0000_0000_0000_0000
    }
}

/// The milliseconds until a conversation's deliveries are looked after again.
pub open spec fn retry_delay(conversation: Seq<char>, attempts: int) -> int {
    base_delay(attempts) + folded(attempts as nat, encode_utf8(conversation)) % 200
}

/// The milliseconds until the deliveries of a conversation are looked after again, after so
/// many attempts.
pub fn delivery_retry_delay(conversation_id: &str, attempts: u8) -> (ms: u64)
    ensures
        ms == retry_delay(conversation_id@, attempts as int),
        400 <= ms < 3200,
{
    let base: u64 = match attempts {
        0 | 1 => 400,
        2 => 700,
        3 => 1000,
        _ => if attempts <= 10 {
            1500
        } else {
            3000
        },
    };
    let bytes = conversation_id.as_bytes();
    let mut acc: u64 = attempts as u64;
    let mut i: usize = 0;
    while i < bytes.len()
        invariant
            0 <= i <= bytes@.len(),
            acc == folded(attempts as nat, bytes@.take(i as int)),
        decreases bytes@.len() - i,
    {
        assert(bytes@.take(i as int + 1).drop_last() =~= bytes@.take(i as int));
        acc = ((acc as u128 * 31 + bytes[i] as u128) % 0x1_0000_0000_0000_0000) as u64;
        i += 1;
    }
    assert(bytes@.take(bytes@.len() as int) =~= bytes@);
    base + acc % 200
}

/// Attempts are never further apart than four seconds and never closer than 400 milliseconds;
/// the first two come within 600.
pub proof fn law_retries_are_bounded(conversation: Seq<char>, attempts: u8)
    ensures
        400 <= retry_delay(conversation, attempts as int) < 4000,
        attempts <= 1 ==> retry_delay(conversation, attempts as int) < 600,
{
}

/// The base of the delay never falls as attempts go on.
pub proof fn law_base_delay_grows(fewer: int, more: int)
    requires
        0 <= fewer <= more,
    ensures
        base_delay(fewer) <= base_delay(more),
{
}

// ---------------------------------------------------------------------------
// What the user is told
// ---------------------------------------------------------------------------

/// How far the delivery of a message has come.
#[derive(Debug, Clone, Copy, PartialEq, Eq, Structural)]
pub enum DeliveryState {
    /// A peer was reachable; its receipt is awaited.
    Pending,
    /// Attempts go on.
    Retrying,
    /// Saved here; no member can be reached.
    Queued,
    Delivered,
    Failed,
}

/// What the chat tells the user interface.
#[derive(Debug)]
pub enum ChatNotification {
    Conversation { conversation: ChatConversation, messages: Vec<ChatMessage> },
    Delivery { message_id: String, state: DeliveryState, detail: Option<String> },
    Error(String),
}

/// The contents of a `ChatNotification`.
pub enum NoteView {
    Conversation { conversation: ConversationView, messages: Seq<MessageView> },
    Delivery { message_id: Seq<char>, state: DeliveryState, detail: Option<Seq<char>> },
    Error(Seq<char>),
}

impl View for ChatNotification {
    type V = NoteView;

    open spec fn view(&self) -> NoteView {
        match self {
            ChatNotification::Conversation { conversation, messages } => NoteView::Conversation {
                conversation: conversation@,
                messages: message_views(messages@),
            },
            ChatNotification::Delivery { message_id, state, detail } => NoteView::Delivery {
                message_id: message_id@,
                state: *state,
                detail: opt_text(*detail),
            },
            ChatNotification::Error(text) => NoteView::Error(text@),
        }
    }
}

/// The contents of a list of notifications.
pub open spec fn note_views(v: Seq<ChatNotification>) -> Seq<NoteView> {
    Seq::new(v.len(), |i: int| v[i]@)
}

/// One notification for each message.
pub open spec fn notes_for(
    ids: Seq<Seq<char>>,
    state: DeliveryState,
    detail: Seq<char>,
) -> Seq<NoteView> {
    Seq::new(
        ids.len(),
        |i: int| NoteView::Delivery { message_id: ids[i], state, detail: Some(detail) },
    )
}

// ---------------------------------------------------------------------------
// State
// ---------------------------------------------------------------------------

/// When a conversation's deliveries are looked after next, and which messages are among them.
pub struct Retry {
    pub attempts: u8,
    pub next_attempt: u64,
    pub messages: Table<String, ()>,
}

/// The contents of a `Retry`.
pub struct RetryView {
    pub attempts: int,
    pub next_attempt: int,
    pub messages: Set<Seq<char>>,
}

impl View for Retry {
    type V = RetryView;

    open spec fn view(&self) -> RetryView {
        RetryView {
            attempts: self.attempts as int,
            next_attempt: self.next_attempt as int,
            messages: self.messages@.dom(),
        }
    }
}

/// The state of our deliveries.
pub struct Deliveries {
    /// For each message without a receipt, its conversation.
    pub pending: Table<String, String>,
    /// For each conversation with attempts under way, when the next one comes.
    pub retries: Table<String, Retry>,
    /// For each conversation, how many wake-ups are on their way.
    pub inflight: Table<String, u32>,
    /// What the user is still to be told, the oldest first.
    pub queued: Vec<ChatNotification>,
}

/// The contents of `Deliveries`.
pub struct DeliveryView {
    pub pending: Map<Seq<char>, Seq<char>>,
    pub retries: Map<Seq<char>, RetryView>,
    pub inflight: Map<Seq<char>, u32>,
    pub queued: Seq<NoteView>,
}

/// The contents of a table of strings.
pub open spec fn text_map(t: Table<String, String>) -> Map<Seq<char>, Seq<char>> {
    Map::new(|k: Seq<char>| t@.contains_key(k), |k: Seq<char>| t@[k]@)
}

/// The contents of a table of retries.
pub open spec fn retry_map(t: Table<String, Retry>) -> Map<Seq<char>, RetryView> {
    Map::new(|k: Seq<char>| t@.contains_key(k), |k: Seq<char>| t@[k]@)
}

impl View for Deliveries {
    type V = DeliveryView;

    open spec fn view(&self) -> DeliveryView {
        DeliveryView {
            pending: text_map(self.pending),
            retries: retry_map(self.retries),
            inflight: self.inflight@,
            queued: note_views(self.queued@),
        }
    }
}

/// The texts of a finite set, in order.
pub open spec fn listing(set: Set<Seq<char>>) -> Seq<Seq<char>> {
    choose|list: Seq<Seq<char>>| lists(list, set)
}

/// Whether `list` holds the texts of `set`, each once and in order.
pub open spec fn lists(list: Seq<Seq<char>>, set: Set<Seq<char>>) -> bool {
    ascending(list) && forall|t: Seq<char>| #[trigger] list.contains(t) <==> set.contains(t)
}

/// A list of the texts of a set is the listing of that set.
pub proof fn lemma_listing(list: Seq<Seq<char>>, set: Set<Seq<char>>)
    requires
        lists(list, set),
    ensures
        listing(set) == list,
{
    let other = listing(set);
    assert(lists(other, set));
    assert forall|t: Seq<char>| list.contains(t) <==> other.contains(t) by {}
    lemma_ascending_unique(list, other);
}

/// The keys of a table that are marked, in order.
fn marked_keys<V>(t: &Table<String, V>, marks: &Vec<bool>, Ghost(set): Ghost<Set<Seq<char>>>) -> (ids:
    Vec<String>)
    requires
        t.wf(),
        marks@.len() == t.entries@.len(),
        forall|i: int|
            0 <= i < t.entries@.len() ==> marks@[i] == set.contains(#[trigger] t.names()[i]),
        set.subset_of(t@.dom()),
    ensures
        lists(texts(ids@), set),
        texts(ids@) == listing(set),
{
    let mut ids: Vec<String> = Vec::new();
    let mut i: usize = 0;
    let ghost places: Seq<int> = Seq::empty();
    while i < t.entries.len()
        invariant
            0 <= i <= t.entries@.len(),
            t.wf(),
            marks@.len() == t.entries@.len(),
            places.len() == ids@.len(),
            forall|a: int|
                0 <= a < places.len() ==> 0 <= #[trigger] places[a] < i && ids@[a]@
                    == t.names()[places[a]] && marks@[places[a]],
            forall|a: int, b: int|
                0 <= a < b < places.len() ==> #[trigger] places[a] < #[trigger] places[b],
            forall|p: int| 0 <= p < i && #[trigger] marks@[p] ==> places.contains(p),
        decreases t.entries@.len() - i,
    {
        let ghost old_places = places;
        if marks[i] {
            ids.push(t.entries[i].0.clone());
            proof {
                places = places.push(i as int);
            }
        }
        proof {
            assert forall|p: int| 0 <= p < i + 1 && #[trigger] marks@[p] implies places.contains(
                p,
            ) by {
                if p < i {
                    assert(old_places.contains(p));
                    let a = choose|a: int| 0 <= a < old_places.len() && old_places[a] == p;
                    assert(places[a] == p);
                } else {
                    assert(places[places.len() - 1] == p);
                }
            }
        }
        i += 1;
    }
    proof {
        let list = texts(ids@);
        assert(ascending(list)) by {
            assert forall|a: int, b: int| 0 <= a < b < list.len() implies text_lt(
                #[trigger] list[a],
                #[trigger] list[b],
            ) by {
                assert(places[a] < places[b]);
                assert(text_lt(t.names()[places[a]], t.names()[places[b]]));
            }
        }
        assert forall|name: Seq<char>| #[trigger] list.contains(name) <==> set.contains(name) by {
            if list.contains(name) {
                let a = choose|a: int| 0 <= a < list.len() && list[a] == name;
                assert(set.contains(t.names()[places[a]]));
            }
            if set.contains(name) {
                assert(t@.dom().contains(name));
                let p = t.lemma_held(name);
                assert(t.names()[p] == name);
                assert(places.contains(p));
                let a = choose|a: int| 0 <= a < places.len() && places[a] == p;
                assert(list[a] == name);
            }
        }
        lemma_listing(list, set);
    }
    ids
}

impl DeliveryView {
    /// The messages of a conversation that wait for a receipt.
    pub open spec fn waiting(self, conversation: Seq<char>) -> Set<Seq<char>> {
        Set::new(
            |id: Seq<char>| self.pending.contains_key(id) && self.pending[id] == conversation,
        )
    }

    /// The retry of a conversation once a message is among it.
    pub open spec fn retry_with(
        self,
        conversation: Seq<char>,
        message: Seq<char>,
        immediate: bool,
        now: int,
    ) -> RetryView {
        let current = if self.retries.contains_key(conversation) {
            self.retries[conversation]
        } else {
            RetryView { attempts: 0, next_attempt: now + FIRST_RETRY_MS, messages: Set::empty() }
        };
        RetryView {
            attempts: current.attempts,
            next_attempt: if immediate {
                now
            } else {
                current.next_attempt
            },
            messages: current.messages.insert(message),
        }
    }

    /// The state once a message is looked after.
    pub open spec fn scheduled(
        self,
        conversation: Seq<char>,
        message: Seq<char>,
        immediate: bool,
        now: int,
    ) -> DeliveryView {
        DeliveryView {
            retries: self.retries.insert(
                conversation,
                self.retry_with(conversation, message, immediate, now),
            ),
            ..self
        }
    }

    /// The state once messages are looked after, one after the other.
    pub open spec fn scheduled_all(
        self,
        conversation: Seq<char>,
        messages: Seq<Seq<char>>,
        immediate: bool,
        now: int,
    ) -> DeliveryView
        decreases messages.len(),
    {
        if messages.len() == 0 {
            self
        } else {
            self.scheduled_all(conversation, messages.drop_last(), immediate, now).scheduled(
                conversation,
                messages.last(),
                immediate,
                now,
            )
        }
    }

    /// The state with more to tell the user.
    pub open spec fn telling(self, notes: Seq<NoteView>) -> DeliveryView {
        DeliveryView { queued: self.queued + notes, ..self }
    }

    /// Those of `messages` that still wait for a receipt.
    pub open spec fn still_pending(self, messages: Seq<Seq<char>>) -> Seq<Seq<char>>
        decreases messages.len(),
    {
        if messages.len() == 0 {
            Seq::empty()
        } else {
            let rest = self.still_pending(messages.drop_last());
            if self.pending.contains_key(messages.last()) {
                rest.push(messages.last())
            } else {
                rest
            }
        }
    }
}

impl Deliveries {
    /// The tables are in order.
    pub open spec fn wf(self) -> bool {
        &&& self.pending.wf()
        &&& self.retries.wf()
        &&& self.inflight.wf()
        &&& forall|c: Seq<char>| #[trigger]
            self.retries@.contains_key(c) ==> self.retries@[c].messages.wf()
    }

    /// Nothing sent yet.
    pub fn new() -> (d: Deliveries)
        ensures
            d.wf(),
            d@ == (DeliveryView {
                pending: Map::empty(),
                retries: Map::empty(),
                inflight: Map::empty(),
                queued: Seq::empty(),
            }),
    {
        let d = Deliveries {
            pending: Table::new(),
            retries: Table::new(),
            inflight: Table::new(),
            queued: Vec::new(),
        };
        assert(d@.pending =~= Map::empty());
        assert(d@.retries =~= Map::empty());
        assert(d@.queued =~= Seq::empty());
        d
    }

    /// Takes the oldest thing that the user is to be told.
    pub fn pop_notification(&mut self) -> (r: Option<ChatNotification>)
        requires
            old(self).wf(),
        ensures
            final(self).wf(),
            match r {
                Some(note) => old(self)@.queued.len() > 0 && note@ == old(self)@.queued[0]
                    && final(self)@ == (DeliveryView {
                    queued: old(self)@.queued.drop_first(),
                    ..old(self)@
                }),
                None => old(self)@.queued.len() == 0 && final(self)@ == old(self)@,
            },
    {
        if self.queued.len() == 0 {
            return None;
        }
        let ghost before = *self;
        let note = self.queued.remove(0);
        proof {
            assert(note_views(self.queued@) =~= note_views(before.queued@).drop_first());
        }
        Some(note)
    }

    fn tell(&mut self, message_id: String, state: DeliveryState, detail: Option<String>)
        requires
            old(self).wf(),
        ensures
            final(self).wf(),
            final(self)@ == old(self)@.telling(
                seq![NoteView::Delivery { message_id: message_id@, state, detail: opt_text(detail) }],
            ),
            final(self).pending == old(self).pending,
            final(self).retries == old(self).retries,
            final(self).inflight == old(self).inflight,
    {
        let ghost before = *self;
        self.queued.push(ChatNotification::Delivery { message_id, state, detail });
        proof {
            assert(note_views(self.queued@) =~= note_views(before.queued@) + seq![
                NoteView::Delivery { message_id: message_id@, state, detail: opt_text(detail) },
            ]);
        }
    }

    /// Tells the user of each message in turn.
    fn tell_all(&mut self, ids: &Vec<String>, state: DeliveryState, detail: &str)
        requires
            old(self).wf(),
        ensures
            final(self).wf(),
            final(self)@ == old(self)@.telling(notes_for(texts(ids@), state, detail@)),
            final(self).pending == old(self).pending,
            final(self).retries == old(self).retries,
            final(self).inflight == old(self).inflight,
    {
        let ghost before = *self;
        let mut i: usize = 0;
        assert(self@.queued =~= before@.queued + notes_for(
            texts(ids@).take(0),
            state,
            detail@,
        ));
        while i < ids.len()
            invariant
                0 <= i <= ids@.len(),
                self.wf(),
                self@ == before@.telling(notes_for(texts(ids@).take(i as int), state, detail@)),
                self.pending == before.pending,
                self.retries == before.retries,
                self.inflight == before.inflight,
            decreases ids@.len() - i,
        {
            self.tell(ids[i].clone(), state, Some(detail.to_owned()));
            proof {
                let next = notes_for(texts(ids@).take(i as int + 1), state, detail@);
                assert(self@.queued =~= before@.queued + next);
            }
            i += 1;
        }
        assert(texts(ids@).take(ids@.len() as int) =~= texts(ids@));
    }

    /// The messages of a conversation that wait for a receipt, in order.
    pub fn waiting_ids(&self, conversation_id: &str) -> (ids: Vec<String>)
        requires
            self.wf(),
        ensures
            lists(texts(ids@), self@.waiting(conversation_id@)),
            texts(ids@) == listing(self@.waiting(conversation_id@)),
    {
        let ghost set = self@.waiting(conversation_id@);
        let mut marks: Vec<bool> = Vec::new();
        let mut i: usize = 0;
        while i < self.pending.entries.len()
            invariant
                0 <= i <= self.pending.entries@.len(),
                self.wf(),
                set == self@.waiting(conversation_id@),
                marks@.len() == i,
                forall|j: int|
                    0 <= j < i ==> marks@[j] == set.contains(#[trigger] self.pending.names()[j]),
            decreases self.pending.entries@.len() - i,
        {
            proof {
                self.pending.lemma_entry(i as int);
            }
            marks.push(same_text(self.pending.entries[i].1.as_str(), conversation_id));
            i += 1;
        }
        marked_keys(&self.pending, &marks, Ghost(set))
    }

    /// Looks after a message: at once, or when the conversation's turn comes.
    pub fn schedule_delivery_retry(
        &mut self,
        conversation_id: &str,
        message_id: &str,
        immediate: bool,
        now: u64,
    )
        requires
            old(self).wf(),
            now <= LAST_INSTANT,
        ensures
            final(self).wf(),
            final(self)@ == old(self)@.scheduled(
                conversation_id@,
                message_id@,
                immediate,
                now as int,
            ),
            final(self).pending == old(self).pending,
            final(self).inflight == old(self).inflight,
            final(self).queued == old(self).queued,
    {
        let ghost before = *self;
        let key = conversation_id.to_owned();
        let mut retry = match self.retries.remove(&key) {
            Some(current) => current,
            None => {
                let fresh = Retry {
                    attempts: 0,
                    next_attempt: now + FIRST_RETRY_MS,
                    messages: Table::new(),
                };
                assert(fresh@.messages =~= Set::empty());
                fresh
            },
        };
        let ghost current = retry@;
        retry.messages.insert(message_id.to_owned(), ());
        assert(retry.messages@.dom() =~= current.messages.insert(message_id@));
        if immediate {
            retry.next_attempt = now;
        }
        let ghost stored = retry;
        self.retries.insert(key, retry);
        proof {
            assert(stored@ == before@.retry_with(
                conversation_id@,
                message_id@,
                immediate,
                now as int,
            ));
            assert(self@.retries =~= before@.retries.insert(conversation_id@, stored@));
        }
    }

    fn schedule_all(&mut self, conversation_id: &str, ids: &Vec<String>, immediate: bool, now: u64)
        requires
            old(self).wf(),
            now <= LAST_INSTANT,
        ensures
            final(self).wf(),
            final(self)@ == old(self)@.scheduled_all(
                conversation_id@,
                texts(ids@),
                immediate,
                now as int,
            ),
            final(self).pending == old(self).pending,
            final(self).inflight == old(self).inflight,
            final(self).queued == old(self).queued,
    {
        let ghost before = *self;
        let mut i: usize = 0;
        while i < ids.len()
            invariant
                0 <= i <= ids@.len(),
                self.wf(),
                now <= LAST_INSTANT,
                self@ == before@.scheduled_all(
                    conversation_id@,
                    texts(ids@).take(i as int),
                    immediate,
                    now as int,
                ),
                self.pending == before.pending,
                self.inflight == before.inflight,
                self.queued == before.queued,
            decreases ids@.len() - i,
        {
            assert(texts(ids@).take(i as int + 1).drop_last() =~= texts(ids@).take(i as int));
            self.schedule_delivery_retry(conversation_id, ids[i].as_str(), immediate, now);
            i += 1;
        }
        assert(texts(ids@).take(ids@.len() as int) =~= texts(ids@));
    }
}

// ---------------------------------------------------------------------------
// Sending
// ---------------------------------------------------------------------------

impl DeliveryView {
    /// The state once a message has been saved here.
    pub open spec fn sent(self, conversation: Seq<char>, message: Seq<char>, now: int) -> DeliveryView {
        DeliveryView { pending: self.pending.insert(message, conversation), ..self }.scheduled(
            conversation,
            message,
            false,
            now,
        ).telling(notes_for(seq![message], DeliveryState::Pending, "delivering"@))
    }

    /// The state once a wake-up has set out.
    pub open spec fn wake_sent(self, conversation: Seq<char>) -> DeliveryView {
        let count: u32 = if self.inflight.contains_key(conversation) {
            self.inflight[conversation]
        } else {
            0
        };
        DeliveryView { inflight: self.inflight.insert(conversation, (count + 1) as u32), ..self }
    }

    /// The state once a wake-up has come back, before anything is made of it.
    pub open spec fn landed(self, conversation: Seq<char>) -> DeliveryView {
        if !self.inflight.contains_key(conversation) {
            self
        } else if self.inflight[conversation] <= 1 {
            DeliveryView { inflight: self.inflight.remove(conversation), ..self }
        } else {
            DeliveryView {
                inflight: self.inflight.insert(
                    conversation,
                    (self.inflight[conversation] - 1) as u32,
                ),
                ..self
            }
        }
    }

    /// The state once a wake-up has come back.
    pub open spec fn woken(self, conversation: Seq<char>, reached: bool, now: int) -> DeliveryView {
        let after = self.landed(conversation);
        let ids = listing(after.waiting(conversation));
        if ids.len() == 0 {
            after
        } else if reached {
            after.scheduled_all(conversation, ids, false, now).telling(
                notes_for(ids, DeliveryState::Pending, "delivering"@),
            )
        } else if after.inflight.contains_key(conversation) || after.retries.contains_key(
            conversation,
        ) {
            after
        } else {
            after.telling(notes_for(ids, DeliveryState::Queued, "waiting for peer"@))
        }
    }
}

impl Deliveries {
    /// A message was saved in its document: its receipt is awaited from now on.
    pub fn message_committed(&mut self, conversation_id: &str, message_id: &str, now: u64)
        requires
            old(self).wf(),
            now <= LAST_INSTANT,
        ensures
            final(self).wf(),
            final(self)@ == old(self)@.sent(conversation_id@, message_id@, now as int),
    {
        let ghost before = *self;
        let kept = conversation_id.to_owned();
        self.pending.insert(message_id.to_owned(), kept);
        proof {
            assert(self@.pending =~= before@.pending.insert(message_id@, conversation_id@));
        }
        self.schedule_delivery_retry(conversation_id, message_id, false, now);
        self.tell(message_id.to_owned(), DeliveryState::Pending, Some("delivering".to_owned()));
        proof {
            assert(seq![
                NoteView::Delivery {
                    message_id: message_id@,
                    state: DeliveryState::Pending,
                    detail: Some("delivering"@),
                },
            ] =~= notes_for(seq![message_id@], DeliveryState::Pending, "delivering"@));
        }
    }

    /// A message could not be saved.
    pub fn message_refused(&mut self, message_id: String, problem: String)
        requires
            old(self).wf(),
        ensures
            final(self).wf(),
            final(self)@ == old(self)@.telling(
                notes_for(seq![message_id@], DeliveryState::Failed, problem@),
            ),
    {
        proof {
            assert(seq![
                NoteView::Delivery {
                    message_id: message_id@,
                    state: DeliveryState::Failed,
                    detail: Some(problem@),
                },
            ] =~= notes_for(seq![message_id@], DeliveryState::Failed, problem@));
        }
        self.tell(message_id, DeliveryState::Failed, Some(problem));
    }

    /// Something went wrong that the user should know.
    pub fn report(&mut self, problem: String)
        requires
            old(self).wf(),
        ensures
            final(self).wf(),
            final(self)@ == old(self)@.telling(seq![NoteView::Error(problem@)]),
    {
        let ghost before = *self;
        self.queued.push(ChatNotification::Error(problem));
        proof {
            assert(note_views(self.queued@) =~= note_views(before.queued@) + seq![
                NoteView::Error(problem@),
            ]);
        }
    }

    /// A wake-up to the members of a conversation sets out.
    pub fn wake_started(&mut self, conversation_id: &str)
        requires
            old(self).wf(),
            old(self)@.inflight.contains_key(conversation_id@)
                ==> old(self)@.inflight[conversation_id@] < u32::MAX,
        ensures
            final(self).wf(),
            final(self)@ == old(self)@.wake_sent(conversation_id@),
    {
        let key = conversation_id.to_owned();
        let count: u32 = match self.inflight.get(&key) {
            Some(count) => *count,
            None => 0,
        };
        self.inflight.insert(key, count + 1);
    }

    /// A wake-up has come back. Says whether the timeline is to be refreshed.
    pub fn apply_wake_finished(&mut self, conversation_id: &str, reached: bool, now: u64) -> (refresh:
        bool)
        requires
            old(self).wf(),
            now <= LAST_INSTANT,
        ensures
            final(self).wf(),
            final(self)@ == old(self)@.woken(conversation_id@, reached, now as int),
            refresh == (reached && exists|id: Seq<char>| #[trigger]
                old(self)@.waiting(conversation_id@).contains(id)),
    {
        let ghost before = *self;
        let key = conversation_id.to_owned();
        let count: Option<u32> = match self.inflight.get(&key) {
            Some(count) => Some(*count),
            None => None,
        };
        match count {
            Some(count) => if count <= 1 {
                self.inflight.remove(&key);
            } else {
                self.inflight.insert(key.clone(), count - 1);
            },
            None => {},
        }
        let ghost after = before@.landed(conversation_id@);
        assert(self@ == after);
        let ids = self.waiting_ids(conversation_id);
        proof {
            assert(after.waiting(conversation_id@) =~= before@.waiting(conversation_id@));
        }
        if ids.len() == 0 {
            proof {
                assert forall|id: Seq<char>| !#[trigger] before@.waiting(conversation_id@).contains(id) by {
                    assert(texts(ids@).contains(id) <==> after.waiting(conversation_id@).contains(id));
                }
            }
            return false;
        }
        proof {
            assert(texts(ids@).contains(texts(ids@)[0]));
            assert(before@.waiting(conversation_id@).contains(texts(ids@)[0]));
        }
        if reached {
            self.schedule_all(conversation_id, &ids, false, now);
            self.tell_all(&ids, DeliveryState::Pending, "delivering");
            return true;
        }
        if self.inflight.has(&key) || self.retries.has(&key) {
            return false;
        }
        self.tell_all(&ids, DeliveryState::Queued, "waiting for peer");
        false
    }
}

/// Deliveries are parked only when every wake-up on its way has failed and no attempt is under
/// way: otherwise the user is told nothing of a failed wake-up.
pub proof fn law_one_lost_wake_parks_nothing(
    state: DeliveryView,
    conversation: Seq<char>,
    now: int,
)
    requires
        state.inflight.contains_key(conversation) && state.inflight[conversation] > 1
            || state.retries.contains_key(conversation),
    ensures
        state.woken(conversation, false, now).queued == state.queued,
        state.woken(conversation, false, now).retries == state.retries,
        state.woken(conversation, false, now).pending == state.pending,
{
}

/// A wake-up that came back leaves the count as it was before it set out.
pub proof fn law_wakes_are_counted(state: DeliveryView, conversation: Seq<char>)
    requires
        state.inflight.contains_key(conversation) ==> 0 < state.inflight[conversation] < u32::MAX,
    ensures
        state.wake_sent(conversation).landed(conversation) == state,
{
    assert(state.wake_sent(conversation).landed(conversation).inflight =~= state.inflight);
}

// ---------------------------------------------------------------------------
// Trying again
// ---------------------------------------------------------------------------

impl DeliveryView {
    /// The conversations whose turn has come.
    pub open spec fn due_set(self, now: int) -> Set<Seq<char>> {
        Set::new(
            |c: Seq<char>| self.retries.contains_key(c) && self.retries[c].next_attempt <= now,
        )
    }

    /// The state with no attempts under way for a conversation.
    pub open spec fn unscheduled(self, conversation: Seq<char>) -> DeliveryView {
        DeliveryView { retries: self.retries.remove(conversation), ..self }
    }

    /// The state after an attempt that reached nobody.
    pub open spec fn attempt_failed(self, conversation: Seq<char>, ids: Seq<Seq<char>>) -> DeliveryView {
        self.unscheduled(conversation).telling(
            notes_for(self.still_pending(ids), DeliveryState::Queued, "waiting for peer"@),
        )
    }

    /// How many attempts have been made, one more than before.
    pub open spec fn next_attempts(self, conversation: Seq<char>) -> int {
        let attempts = self.retries[conversation].attempts;
        if attempts < 255 {
            attempts + 1
        } else {
            255
        }
    }

    /// The state after an attempt that reached a peer.
    pub open spec fn attempt_made(
        self,
        conversation: Seq<char>,
        ids: Seq<Seq<char>>,
        now: int,
    ) -> DeliveryView {
        if !self.retries.contains_key(conversation) || self.retries[conversation].messages
            == Set::<Seq<char>>::empty() {
            self
        } else {
            let attempts = self.next_attempts(conversation);
            DeliveryView {
                retries: self.retries.insert(
                    conversation,
                    RetryView {
                        attempts,
                        next_attempt: now + retry_delay(conversation, attempts),
                        messages: self.retries[conversation].messages,
                    },
                ),
                ..self
            }.telling(
                notes_for(
                    self.still_pending(ids),
                    DeliveryState::Retrying,
                    "delivery retry "@ + decimal(attempts as nat),
                ),
            )
        }
    }
}

impl Deliveries {
    /// The conversations whose turn has come, in order.
    pub fn due(&self, now: u64) -> (ids: Vec<String>)
        requires
            self.wf(),
        ensures
            lists(texts(ids@), self@.due_set(now as int)),
            texts(ids@) == listing(self@.due_set(now as int)),
    {
        let ghost set = self@.due_set(now as int);
        let mut marks: Vec<bool> = Vec::new();
        let mut i: usize = 0;
        while i < self.retries.entries.len()
            invariant
                0 <= i <= self.retries.entries@.len(),
                self.wf(),
                set == self@.due_set(now as int),
                marks@.len() == i,
                forall|j: int|
                    0 <= j < i ==> marks@[j] == set.contains(#[trigger] self.retries.names()[j]),
            decreases self.retries.entries@.len() - i,
        {
            proof {
                self.retries.lemma_entry(i as int);
            }
            marks.push(self.retries.entries[i].1.next_attempt <= now);
            i += 1;
        }
        marked_keys(&self.retries, &marks, Ghost(set))
    }

    /// The messages that an attempt for a conversation is about. Where there are none, nothing
    /// is tried and the conversation is looked after no more.
    pub fn begin_retry(&mut self, conversation_id: &str) -> (r: Option<Vec<String>>)
        requires
            old(self).wf(),
        ensures
            final(self).wf(),
            match r {
                Some(ids) => final(self)@ == old(self)@ && old(self)@.retries.contains_key(
                    conversation_id@,
                ) && ids@.len() > 0 && lists(
                    texts(ids@),
                    old(self)@.retries[conversation_id@].messages,
                ),
                None => (old(self)@.retries.contains_key(conversation_id@)
                    ==> old(self)@.retries[conversation_id@].messages == Set::<Seq<char>>::empty())
                    && final(self)@ == old(self)@.unscheduled(conversation_id@),
            },
    {
        let ghost before = *self;
        let key = conversation_id.to_owned();
        let ids: Vec<String> = match self.retries.find(&key) {
            Some(i) => {
                let ids = key_list(&self.retries.entries[i].1.messages);
                ids
            },
            None => Vec::new(),
        };
        if ids.len() == 0 {
            proof {
                if before.retries@.contains_key(conversation_id@) {
                    let set = before@.retries[conversation_id@].messages;
                    assert forall|t: Seq<char>| !set.contains(t) by {
                        assert(texts(ids@).contains(t) <==> set.contains(t));
                    }
                    assert(set =~= Set::empty());
                }
            }
            self.retries.remove(&key);
            proof {
                assert(self@.retries =~= before@.retries.remove(conversation_id@));
            }
            return None;
        }
        Some(ids)
    }

    fn keep_pending(&self, ids: &Vec<String>) -> (kept: Vec<String>)
        requires
            self.wf(),
        ensures
            texts(kept@) == self@.still_pending(texts(ids@)),
    {
        let mut kept: Vec<String> = Vec::new();
        let mut i: usize = 0;
        assert(texts(kept@) =~= Seq::empty());
        while i < ids.len()
            invariant
                0 <= i <= ids@.len(),
                self.wf(),
                texts(kept@) == self@.still_pending(texts(ids@).take(i as int)),
            decreases ids@.len() - i,
        {
            let ghost before = kept@;
            assert(texts(ids@).take(i as int + 1).drop_last() =~= texts(ids@).take(i as int));
            if self.pending.has(&ids[i]) {
                kept.push(ids[i].clone());
                assert(texts(kept@) =~= texts(before).push(ids@[i as int]@));
            }
            i += 1;
        }
        assert(texts(ids@).take(ids@.len() as int) =~= texts(ids@));
        kept
    }

    /// An attempt reached nobody: those messages that still wait are parked.
    pub fn retry_unreached(&mut self, conversation_id: &str, ids: &Vec<String>)
        requires
            old(self).wf(),
        ensures
            final(self).wf(),
            final(self)@ == old(self)@.attempt_failed(conversation_id@, texts(ids@)),
    {
        let ghost before = *self;
        let kept = self.keep_pending(ids);
        let key = conversation_id.to_owned();
        self.retries.remove(&key);
        proof {
            assert(self@.retries =~= before@.retries.remove(conversation_id@));
        }
        self.tell_all(&kept, DeliveryState::Queued, "waiting for peer");
    }

    /// An attempt reached a peer and the timeline was refreshed: the next attempt is set.
    pub fn retry_reached(&mut self, conversation_id: &str, ids: &Vec<String>, now: u64)
        requires
            old(self).wf(),
            now <= LAST_INSTANT,
        ensures
            final(self).wf(),
            final(self)@ == old(self)@.attempt_made(conversation_id@, texts(ids@), now as int),
    {
        let ghost before = *self;
        let key = conversation_id.to_owned();
        let mut retry = match self.retries.remove(&key) {
            Some(retry) => retry,
            None => {
                return;
            },
        };
        if retry.messages.len() == 0 {
            proof {
                assert(retry.messages@.dom() =~= Set::empty());
            }
            self.retries.insert(key, retry);
            proof {
                assert(self@.retries =~= before@.retries);
            }
            return;
        }
        proof {
            retry.messages.lemma_entry(0);
            assert(before@.retries[conversation_id@].messages.contains(
                retry.messages.entries@[0].0@,
            ));
        }
        let attempts: u8 = if retry.attempts < 255 {
            retry.attempts + 1
        } else {
            255
        };
        retry.attempts = attempts;
        retry.next_attempt = now + delivery_retry_delay(conversation_id, attempts);
        let ghost stored = retry;
        self.retries.insert(key, retry);
        proof {
            assert(self@.retries =~= before@.retries.insert(conversation_id@, stored@));
        }
        let mut detail: String = "delivery retry ".to_owned();
        push_decimal(&mut detail, attempts as u64);
        let kept = self.keep_pending(ids);
        proof {
            lemma_still_pending(self@, before@, texts(ids@));
        }
        self.tell_all(&kept, DeliveryState::Retrying, detail.as_str());
    }
}

/// Which messages wait depends on the pending table alone.
proof fn lemma_still_pending(a: DeliveryView, b: DeliveryView, ids: Seq<Seq<char>>)
    requires
        a.pending == b.pending,
    ensures
        a.still_pending(ids) == b.still_pending(ids),
    decreases ids.len(),
{
    if ids.len() > 0 {
        lemma_still_pending(a, b, ids.drop_last());
    }
}

/// The keys of a table, in order.
pub fn key_list<V>(t: &Table<String, V>) -> (ids: Vec<String>)
    requires
        t.wf(),
    ensures
        lists(texts(ids@), t@.dom()),
        texts(ids@) == listing(t@.dom()),
        texts(ids@) == t.names(),
{
    let mut ids: Vec<String> = Vec::new();
    let mut i: usize = 0;
    while i < t.entries.len()
        invariant
            0 <= i <= t.entries@.len(),
            ids@.len() == i,
            forall|j: int| 0 <= j < i ==> #[trigger] ids@[j]@ == t.entries@[j].0@,
        decreases t.entries@.len() - i,
    {
        ids.push(t.entries[i].0.clone());
        i += 1;
    }
    proof {
        assert(texts(ids@) =~= t.names());
        assert(ascending(texts(ids@))) by {
            assert forall|a: int, b: int| 0 <= a < b < texts(ids@).len() implies text_lt(
                #[trigger] texts(ids@)[a],
                #[trigger] texts(ids@)[b],
            ) by {
                assert(text_lt(t.names()[a], t.names()[b]));
            }
        }
        lemma_listing(texts(ids@), t@.dom());
    }
    ids
}

// ---------------------------------------------------------------------------
// A peer is back
// ---------------------------------------------------------------------------

impl DeliveryView {
    /// Whether parked deliveries of a conversation are taken up again.
    pub open spec fn resumes(self, conversation: Seq<char>) -> bool {
        !self.retries.contains_key(conversation) && exists|id: Seq<char>| #[trigger]
            self.waiting(conversation).contains(id)
    }

    /// The state once parked deliveries are taken up again.
    pub open spec fn resumed(self, conversation: Seq<char>, now: int) -> DeliveryView {
        let ids = listing(self.waiting(conversation));
        self.scheduled_all(conversation, ids, true, now).telling(
            notes_for(ids, DeliveryState::Pending, "peer online; delivering"@),
        )
    }
}

impl Deliveries {
    /// A peer of the conversation is back: takes up its parked deliveries, unless attempts are
    /// already under way. Gives the messages that a wake-up is now due for.
    pub fn begin_resume(&mut self, conversation_id: &str, now: u64) -> (r: Option<Vec<String>>)
        requires
            old(self).wf(),
            now <= LAST_INSTANT,
        ensures
            final(self).wf(),
            match r {
                Some(ids) => old(self)@.resumes(conversation_id@) && final(self)@
                    == old(self)@.resumed(conversation_id@, now as int) && texts(ids@) == listing(
                    old(self)@.waiting(conversation_id@),
                ) && lists(texts(ids@), old(self)@.waiting(conversation_id@)),
                None => !old(self)@.resumes(conversation_id@) && final(self)@ == old(self)@,
            },
    {
        let ghost before = *self;
        let ids = self.waiting_ids(conversation_id);
        if ids.len() == 0 {
            proof {
                assert forall|id: Seq<char>| !#[trigger] before@.waiting(conversation_id@).contains(id) by {
                    assert(texts(ids@).contains(id) <==> before@.waiting(conversation_id@).contains(id));
                }
            }
            return None;
        }
        let key = conversation_id.to_owned();
        if self.retries.has(&key) {
            return None;
        }
        proof {
            assert(texts(ids@).contains(texts(ids@)[0]));
            assert(before@.waiting(conversation_id@).contains(texts(ids@)[0]));
        }
        self.schedule_all(conversation_id, &ids, true, now);
        self.tell_all(&ids, DeliveryState::Pending, "peer online; delivering");
        Some(ids)
    }

    /// The peer could not be reached after all.
    pub fn resume_unreached(&mut self, conversation_id: &str, ids: &Vec<String>)
        requires
            old(self).wf(),
        ensures
            final(self).wf(),
            final(self)@ == old(self)@.unscheduled(conversation_id@).telling(
                notes_for(texts(ids@), DeliveryState::Queued, "waiting for peer"@),
            ),
    {
        let ghost before = *self;
        let key = conversation_id.to_owned();
        self.retries.remove(&key);
        proof {
            assert(self@.retries =~= before@.retries.remove(conversation_id@));
        }
        self.tell_all(ids, DeliveryState::Queued, "waiting for peer");
    }

    /// Whether a message of this conversation waits for a receipt.
    pub fn has_waiting(&self, conversation_id: &str) -> (r: bool)
        requires
            self.wf(),
        ensures
            r == exists|id: Seq<char>| #[trigger] self@.waiting(conversation_id@).contains(id),
    {
        let ids = self.waiting_ids(conversation_id);
        proof {
            if ids@.len() > 0 {
                assert(texts(ids@).contains(texts(ids@)[0]));
                assert(self@.waiting(conversation_id@).contains(texts(ids@)[0]));
            }
            assert forall|id: Seq<char>|
                ids@.len() == 0 implies !#[trigger] self@.waiting(conversation_id@).contains(id) by {
                assert(texts(ids@).contains(id) <==> self@.waiting(conversation_id@).contains(id));
            }
        }
        ids.len() > 0
    }
}

/// A peer that turns out to be away after all leaves everything as it was, but for what the user
/// was told.
pub proof fn law_failed_resume_parks_again(state: DeliveryView, conversation: Seq<char>, now: int)
    requires
        state.resumes(conversation),
    ensures
        state.resumed(conversation, now).unscheduled(conversation).retries == state.retries,
        state.resumed(conversation, now).unscheduled(conversation).pending == state.pending,
        state.resumed(conversation, now).unscheduled(conversation).inflight == state.inflight,
{
    let ids = listing(state.waiting(conversation));
    lemma_scheduled_all_frame(state, conversation, ids, true, now);
    assert(state.resumed(conversation, now).unscheduled(conversation).retries =~= state.retries);
}

/// Looking after messages of one conversation changes nothing else.
pub proof fn lemma_scheduled_all_frame(
    state: DeliveryView,
    conversation: Seq<char>,
    ids: Seq<Seq<char>>,
    immediate: bool,
    now: int,
)
    ensures
        ({
            let after = state.scheduled_all(conversation, ids, immediate, now);
            &&& after.pending == state.pending
            &&& after.inflight == state.inflight
            &&& after.queued == state.queued
            &&& forall|c: Seq<char>|
                c != conversation ==> (after.retries.contains_key(c)
                    <==> state.retries.contains_key(c))
            &&& forall|c: Seq<char>|
                c != conversation && #[trigger] state.retries.contains_key(c) ==> after.retries[c]
                    == state.retries[c]
            &&& ids.len() > 0 ==> after.retries.contains_key(conversation)
        }),
    decreases ids.len(),
{
    if ids.len() > 0 {
        lemma_scheduled_all_frame(state, conversation, ids.drop_last(), immediate, now);
    }
}

// ---------------------------------------------------------------------------
// Receipts
// ---------------------------------------------------------------------------

/// The ids of a list of messages.
pub open spec fn ids_of(messages: Seq<MessageView>) -> Seq<Seq<char>> {
    Seq::new(messages.len(), |i: int| messages[i].message_id)
}

/// What still waits, and what the user is told, once the receipts for `messages` are in.
pub open spec fn acknowledged(
    pending: Map<Seq<char>, Seq<char>>,
    messages: Seq<MessageView>,
    delivered: Set<Seq<char>>,
    ours: Seq<char>,
) -> (Map<Seq<char>, Seq<char>>, Seq<NoteView>)
    decreases messages.len(),
{
    if messages.len() == 0 {
        (pending, Seq::empty())
    } else {
        let (rest, notes) = acknowledged(pending, messages.drop_last(), delivered, ours);
        let m = messages.last();
        if m.author_id == ours && delivered.contains(m.message_id) && rest.contains_key(
            m.message_id,
        ) {
            (
                rest.remove(m.message_id),
                notes.push(
                    NoteView::Delivery {
                        message_id: m.message_id,
                        state: DeliveryState::Delivered,
                        detail: None,
                    },
                ),
            )
        } else {
            (rest, notes)
        }
    }
}

/// The attempts that are still needed: those with a message that waits.
pub open spec fn needed(
    retries: Map<Seq<char>, RetryView>,
    pending: Map<Seq<char>, Seq<char>>,
) -> Map<Seq<char>, RetryView> {
    Map::new(
        |c: Seq<char>|
            retries.contains_key(c) && retries[c].messages.intersect(pending.dom())
                != Set::<Seq<char>>::empty(),
        |c: Seq<char>|
            RetryView {
                messages: retries[c].messages.intersect(pending.dom()),
                ..retries[c]
            },
    )
}

impl DeliveryView {
    /// The messages of a conversation that wait although its timeline no longer has them.
    pub open spec fn vanished(self, conversation: Seq<char>, messages: Seq<MessageView>) -> Set<
        Seq<char>,
    > {
        Set::new(
            |id: Seq<char>|
                self.waiting(conversation).contains(id) && !ids_of(messages).contains(id),
        )
    }

    /// The state once a timeline has been published.
    pub open spec fn published(
        self,
        conversation: ConversationView,
        messages: Seq<MessageView>,
        delivered: Set<Seq<char>>,
        ours: Seq<char>,
    ) -> DeliveryView {
        let present = self.pending.remove_keys(self.vanished(conversation.id, messages));
        let (pending, notes) = acknowledged(present, messages, delivered, ours);
        DeliveryView {
            pending,
            retries: needed(self.retries, pending),
            inflight: self.inflight,
            queued: self.queued + notes + seq![NoteView::Conversation { conversation, messages }],
        }
    }
}

fn id_set(messages: &Vec<ChatMessage>) -> (t: Table<String, ()>)
    ensures
        t.wf(),
        forall|id: Seq<char>| #[trigger]
            t@.contains_key(id) <==> ids_of(message_views(messages@)).contains(id),
{
    let mut t: Table<String, ()> = Table::new();
    let mut i: usize = 0;
    let ghost ids = ids_of(message_views(messages@));
    while i < messages.len()
        invariant
            0 <= i <= messages@.len(),
            ids == ids_of(message_views(messages@)),
            t.wf(),
            forall|id: Seq<char>| #[trigger]
                t@.contains_key(id) <==> ids.take(i as int).contains(id),
        decreases messages@.len() - i,
    {
        t.insert(messages[i].message_id.clone(), ());
        proof {
            let next = ids.take(i as int + 1);
            assert(next =~= ids.take(i as int).push(ids[i as int]));
            assert forall|id: Seq<char>| #[trigger] t@.contains_key(id) <==> next.contains(id) by {
                if ids.take(i as int).contains(id) {
                    let j = choose|j: int|
                        0 <= j < ids.take(i as int).len() && ids.take(i as int)[j] == id;
                    assert(next[j] == id);
                }
                if id == ids[i as int] {
                    assert(next[i as int] == id);
                }
            }
        }
        i += 1;
    }
    assert(ids.take(messages@.len() as int) =~= ids);
    t
}

fn common_keys(t: &Table<String, ()>, pending: &Table<String, String>) -> (r: Table<String, ()>)
    requires
        t.wf(),
        pending.wf(),
    ensures
        r.wf(),
        r@.dom() == t@.dom().intersect(pending@.dom()),
{
    let mut r: Table<String, ()> = Table::new();
    let mut i: usize = 0;
    while i < t.entries.len()
        invariant
            0 <= i <= t.entries@.len(),
            t.wf(),
            pending.wf(),
            r.wf(),
            forall|id: Seq<char>| #[trigger]
                r@.contains_key(id) <==> t.names().take(i as int).contains(id)
                    && pending@.contains_key(id),
        decreases t.entries@.len() - i,
    {
        let ghost names = t.names();
        if pending.has(&t.entries[i].0) {
            r.insert(t.entries[i].0.clone(), ());
        }
        proof {
            let next = names.take(i as int + 1);
            assert(next =~= names.take(i as int).push(names[i as int]));
            assert forall|id: Seq<char>| #[trigger] r@.contains_key(id) <==> next.contains(id)
                && pending@.contains_key(id) by {
                if names.take(i as int).contains(id) {
                    let j = choose|j: int|
                        0 <= j < names.take(i as int).len() && names.take(i as int)[j] == id;
                    assert(next[j] == id);
                }
                if id == names[i as int] {
                    assert(next[i as int] == id);
                }
            }
        }
        i += 1;
    }
    proof {
        assert(t.names().take(t.entries@.len() as int) =~= t.names());
        assert forall|id: Seq<char>| r@.dom().contains(id) <==> t@.dom().intersect(
            pending@.dom(),
        ).contains(id) by {
            assert(r@.contains_key(id) <==> t.names().contains(id) && pending@.contains_key(id));
        }
        assert(r@.dom() =~= t@.dom().intersect(pending@.dom()));
    }
    r
}

impl Deliveries {
    fn forget_ids(&mut self, ids: &Vec<String>)
        requires
            old(self).wf(),
        ensures
            final(self).wf(),
            final(self)@ == (DeliveryView {
                pending: old(self)@.pending.remove_keys(texts(ids@).to_set()),
                ..old(self)@
            }),
            final(self).retries == old(self).retries,
    {
        let ghost before = *self;
        let mut i: usize = 0;
        assert(self@.pending =~= before@.pending.remove_keys(texts(ids@).take(0).to_set()));
        while i < ids.len()
            invariant
                0 <= i <= ids@.len(),
                self.wf(),
                self.retries == before.retries,
                self.inflight == before.inflight,
                self.queued == before.queued,
                self@.pending == before@.pending.remove_keys(texts(ids@).take(i as int).to_set()),
            decreases ids@.len() - i,
        {
            let ghost here = self@.pending;
            self.pending.remove(&ids[i]);
            proof {
                let all = texts(ids@);
                assert(self@.pending =~= here.remove(all[i as int]));
                assert(all.take(i as int + 1) =~= all.take(i as int).push(all[i as int]));
                assert(all.take(i as int + 1).to_set() =~= all.take(i as int).to_set().insert(
                    all[i as int],
                )) by {
                    broadcast use vstd::seq_lib::group_seq_properties;

                }
                assert(self@.pending =~= before@.pending.remove_keys(
                    all.take(i as int + 1).to_set(),
                ));
            }
            i += 1;
        }
        assert(texts(ids@).take(ids@.len() as int) =~= texts(ids@));
    }

    fn settle(&mut self, messages: &Vec<ChatMessage>, delivered: &Table<String, ()>, ours: &str)
        requires
            old(self).wf(),
            delivered.wf(),
        ensures
            final(self).wf(),
            final(self).retries == old(self).retries,
            ({
                let (pending, notes) = acknowledged(
                    old(self)@.pending,
                    message_views(messages@),
                    delivered@.dom(),
                    ours@,
                );
                final(self)@ == (DeliveryView {
                    pending,
                    queued: old(self)@.queued + notes,
                    ..old(self)@
                })
            }),
    {
        let ghost before = *self;
        let ghost views = message_views(messages@);
        let mut i: usize = 0;
        assert(self@.queued =~= before@.queued + Seq::<NoteView>::empty());
        while i < messages.len()
            invariant
                0 <= i <= messages@.len(),
                views == message_views(messages@),
                self.wf(),
                delivered.wf(),
                self.retries == before.retries,
                self.inflight == before.inflight,
                self@.pending == acknowledged(
                    before@.pending,
                    views.take(i as int),
                    delivered@.dom(),
                    ours@,
                ).0,
                self@.queued == before@.queued + acknowledged(
                    before@.pending,
                    views.take(i as int),
                    delivered@.dom(),
                    ours@,
                ).1,
            decreases messages@.len() - i,
        {
            let ghost here = self@;
            proof {
                assert(views.take(i as int + 1).drop_last() =~= views.take(i as int));
                assert(views.take(i as int + 1).last() == messages@[i as int]@);
            }
            let m = &messages[i];
            if same_text(m.author_id.as_str(), ours) && delivered.has(&m.message_id) {
                let removed = self.pending.remove(&m.message_id);
                match removed {
                    Some(_) => {
                        proof {
                            assert(self@.pending =~= here.pending.remove(m.message_id@));
                        }
                        self.tell(m.message_id.clone(), DeliveryState::Delivered, None);
                        proof {
                            let now = acknowledged(
                                before@.pending,
                                views.take(i as int + 1),
                                delivered@.dom(),
                                ours@,
                            );
                            assert(self@.queued =~= before@.queued + now.1);
                        }
                    },
                    None => {},
                }
            }
            i += 1;
        }
        assert(views.take(messages@.len() as int) =~= views);
    }

    fn prune(&mut self)
        requires
            old(self).wf(),
        ensures
            final(self).wf(),
            final(self)@ == (DeliveryView {
                retries: needed(old(self)@.retries, old(self)@.pending),
                ..old(self)@
            }),
    {
        let ghost before = *self;
        let mut kept: Table<String, Retry> = Table::new();
        let mut i: usize = 0;
        while i < self.retries.entries.len()
            invariant
                0 <= i <= self.retries.entries@.len(),
                self.wf(),
                *self == before,
                kept.wf(),
                forall|c: Seq<char>| #[trigger]
                    kept@.contains_key(c) <==> self.retries.names().take(i as int).contains(c)
                        && needed(before@.retries, before@.pending).contains_key(c),
                forall|c: Seq<char>| #[trigger]
                    kept@.contains_key(c) ==> kept@[c].messages.wf() && kept@[c]@ == needed(
                        before@.retries,
                        before@.pending,
                    )[c],
            decreases self.retries.entries@.len() - i,
        {
            let ghost names = self.retries.names();
            proof {
                self.retries.lemma_entry(i as int);
                assert(before@.retries.contains_key(names[i as int]));
            }
            let messages = common_keys(&self.retries.entries[i].1.messages, &self.pending);
            proof {
                assert(before@.pending.dom() =~= before.pending@.dom());
                assert(messages@.dom() =~= before@.retries[names[i as int]].messages.intersect(
                    before@.pending.dom(),
                ));
            }
            if messages.len() > 0 {
                proof {
                    messages.lemma_entry(0);
                    assert(messages@.dom().contains(messages.entries@[0].0@));
                }
                let fresh = Retry {
                    attempts: self.retries.entries[i].1.attempts,
                    next_attempt: self.retries.entries[i].1.next_attempt,
                    messages,
                };
                kept.insert(self.retries.entries[i].0.clone(), fresh);
            } else {
                assert(messages@.dom() =~= Set::empty());
            }
            proof {
                let next = names.take(i as int + 1);
                assert(next =~= names.take(i as int).push(names[i as int]));
                assert forall|c: Seq<char>| #[trigger] kept@.contains_key(c) <==> next.contains(c)
                    && needed(before@.retries, before@.pending).contains_key(c) by {
                    if names.take(i as int).contains(c) {
                        let j = choose|j: int|
                            0 <= j < names.take(i as int).len() && names.take(i as int)[j] == c;
                        assert(next[j] == c);
                    }
                    if c == names[i as int] {
                        assert(next[i as int] == c);
                    }
                }
            }
            i += 1;
        }
        proof {
            assert(self.retries.names().take(self.retries.entries@.len() as int)
                =~= self.retries.names());
            assert forall|c: Seq<char>| retry_map(kept).contains_key(c) <==> needed(
                before@.retries,
                before@.pending,
            ).contains_key(c) by {
                assert(kept@.contains_key(c) <==> self.retries.names().contains(c) && needed(
                    before@.retries,
                    before@.pending,
                ).contains_key(c));
            }
            assert(retry_map(kept) =~= needed(before@.retries, before@.pending));
        }
        self.retries = kept;
    }

    /// The timeline of a conversation was read, with the messages that peers have receipts for:
    /// settles what has arrived, forgets what has vanished, and tells the user.
    pub fn publish_timeline(
        &mut self,
        conversation: ChatConversation,
        messages: Vec<ChatMessage>,
        delivered: &Table<String, ()>,
        ours: &NodeId,
    )
        requires
            old(self).wf(),
            delivered.wf(),
        ensures
            final(self).wf(),
            final(self)@ == old(self)@.published(
                conversation@,
                message_views(messages@),
                delivered@.dom(),
                hex_lower(ours@),
            ),
    {
        let ghost before = *self;
        let ghost views = message_views(messages@);
        let visible = id_set(&messages);
        let waiting = self.waiting_ids(conversation.id.as_str());
        let mut dropped: Vec<String> = Vec::new();
        let mut i: usize = 0;
        while i < waiting.len()
            invariant
                0 <= i <= waiting@.len(),
                visible.wf(),
                forall|id: Seq<char>| #[trigger]
                    visible@.contains_key(id) <==> ids_of(views).contains(id),
                forall|id: Seq<char>| #[trigger]
                    texts(dropped@).contains(id) <==> texts(waiting@).take(i as int).contains(id)
                        && !ids_of(views).contains(id),
            decreases waiting@.len() - i,
        {
            let ghost old_dropped = texts(dropped@);
            let ghost all = texts(waiting@);
            if !visible.has(&waiting[i]) {
                dropped.push(waiting[i].clone());
                assert(texts(dropped@) =~= old_dropped.push(all[i as int]));
            }
            proof {
                let next = all.take(i as int + 1);
                assert(next =~= all.take(i as int).push(all[i as int]));
                assert forall|id: Seq<char>| #[trigger] texts(dropped@).contains(id)
                    <==> next.contains(id) && !ids_of(views).contains(id) by {
                    if all.take(i as int).contains(id) {
                        let j = choose|j: int|
                            0 <= j < all.take(i as int).len() && all.take(i as int)[j] == id;
                        assert(next[j] == id);
                    }
                    if id == all[i as int] {
                        assert(next[i as int] == id);
                    }
                    if old_dropped.contains(id) {
                        let j = choose|j: int| 0 <= j < old_dropped.len() && old_dropped[j] == id;
                        assert(texts(dropped@)[j] == id);
                    }
                    if !ids_of(views).contains(all[i as int]) {
                        assert(texts(dropped@)[old_dropped.len() as int] == all[i as int]);
                    }
                }
            }
            i += 1;
        }
        self.forget_ids(&dropped);
        proof {
            assert(texts(waiting@).take(waiting@.len() as int) =~= texts(waiting@));
            assert forall|id: Seq<char>| texts(dropped@).to_set().contains(id)
                <==> before@.vanished(conversation@.id, views).contains(id) by {
                assert(texts(dropped@).contains(id) <==> texts(waiting@).contains(id) && !ids_of(
                    views,
                ).contains(id));
                assert(texts(waiting@).contains(id) <==> before@.waiting(
                    conversation@.id,
                ).contains(id));
            }
            assert(texts(dropped@).to_set() =~= before@.vanished(conversation@.id, views));
        }
        let our_text = ours.to_text();
        self.settle(&messages, delivered, our_text.as_str());
        self.prune();
        let ghost almost = self@;
        self.queued.push(ChatNotification::Conversation { conversation, messages });
        proof {
            assert(self@.queued =~= almost.queued + seq![
                NoteView::Conversation { conversation: conversation@, messages: views },
            ]);
            assert(self@.queued =~= before@.published(
                conversation@,
                views,
                delivered@.dom(),
                hex_lower(ours@),
            ).queued);
        }
    }
}

/// After a timeline was published, attempts are under way only for messages that wait.
pub proof fn law_attempts_are_for_waiting_messages(
    state: DeliveryView,
    conversation: ConversationView,
    messages: Seq<MessageView>,
    delivered: Set<Seq<char>>,
    ours: Seq<char>,
    c: Seq<char>,
)
    requires
        state.published(conversation, messages, delivered, ours).retries.contains_key(c),
    ensures
        ({
            let after = state.published(conversation, messages, delivered, ours);
            &&& after.retries[c].messages.subset_of(after.pending.dom())
            &&& after.retries[c].messages != Set::<Seq<char>>::empty()
        }),
{
}

/// A message is reported as delivered at most once: it no longer waits afterwards, and only a
/// message that waited is reported.
pub proof fn law_delivered_once(
    pending: Map<Seq<char>, Seq<char>>,
    messages: Seq<MessageView>,
    delivered: Set<Seq<char>>,
    ours: Seq<char>,
    i: int,
    j: int,
)
    requires
        0 <= i < j < acknowledged(pending, messages, delivered, ours).1.len(),
    ensures
        ({
            let (rest, notes) = acknowledged(pending, messages, delivered, ours);
            &&& notes[i] is Delivery && notes[j] is Delivery
            &&& notes[i]->message_id != notes[j]->message_id
            &&& pending.contains_key(notes[j]->message_id)
            &&& !rest.contains_key(notes[j]->message_id)
        }),
{
    lemma_acknowledged(pending, messages, delivered, ours);
}

proof fn lemma_acknowledged(
    pending: Map<Seq<char>, Seq<char>>,
    messages: Seq<MessageView>,
    delivered: Set<Seq<char>>,
    ours: Seq<char>,
)
    ensures
        ({
            let (rest, notes) = acknowledged(pending, messages, delivered, ours);
            &&& forall|i: int|
                0 <= i < notes.len() ==> (#[trigger] notes[i]) is Delivery && pending.contains_key(
                    notes[i]->message_id,
                ) && !rest.contains_key(notes[i]->message_id)
            &&& forall|i: int, j: int|
                0 <= i < j < notes.len() ==> (#[trigger] notes[i])->message_id != (
                #[trigger] notes[j])->message_id
            &&& forall|id: Seq<char>| #[trigger] rest.contains_key(id) ==> pending.contains_key(id)
        }),
    decreases messages.len(),
{
    if messages.len() > 0 {
        lemma_acknowledged(pending, messages.drop_last(), delivered, ours);
    }
}

// ---------------------------------------------------------------------------
// Starting and forgetting
// ---------------------------------------------------------------------------

/// Our messages without a receipt, in the order of the timeline.
pub open spec fn undelivered(
    messages: Seq<MessageView>,
    delivered: Set<Seq<char>>,
    ours: Seq<char>,
) -> Seq<Seq<char>>
    decreases messages.len(),
{
    if messages.len() == 0 {
        Seq::empty()
    } else {
        let rest = undelivered(messages.drop_last(), delivered, ours);
        let m = messages.last();
        if m.author_id == ours && !delivered.contains(m.message_id) {
            rest.push(m.message_id)
        } else {
            rest
        }
    }
}

/// The table once messages of a conversation wait, one after the other.
pub open spec fn awaiting_all(
    pending: Map<Seq<char>, Seq<char>>,
    conversation: Seq<char>,
    ids: Seq<Seq<char>>,
) -> Map<Seq<char>, Seq<char>>
    decreases ids.len(),
{
    if ids.len() == 0 {
        pending
    } else {
        awaiting_all(pending, conversation, ids.drop_last()).insert(ids.last(), conversation)
    }
}

impl DeliveryView {
    /// The state without anything of a conversation's deliveries.
    pub open spec fn forgotten(self, conversation: Seq<char>) -> DeliveryView {
        DeliveryView {
            pending: self.pending.remove_keys(self.waiting(conversation)),
            retries: self.retries.remove(conversation),
            ..self
        }
    }
}

impl Deliveries {
    /// At the start, takes note of our messages in a timeline that have no receipt yet. Gives
    /// their ids.
    pub fn restore_pending(
        &mut self,
        conversation_id: &str,
        messages: &Vec<ChatMessage>,
        delivered: &Table<String, ()>,
        ours: &NodeId,
    ) -> (ids: Vec<String>)
        requires
            old(self).wf(),
            delivered.wf(),
        ensures
            final(self).wf(),
            texts(ids@) == undelivered(
                message_views(messages@),
                delivered@.dom(),
                hex_lower(ours@),
            ),
            final(self)@ == (DeliveryView {
                pending: awaiting_all(old(self)@.pending, conversation_id@, texts(ids@)),
                ..old(self)@
            }),
    {
        let ghost before = *self;
        let ghost views = message_views(messages@);
        let our_text = ours.to_text();
        let mut ids: Vec<String> = Vec::new();
        let mut i: usize = 0;
        assert(texts(ids@) =~= Seq::empty());
        while i < messages.len()
            invariant
                0 <= i <= messages@.len(),
                views == message_views(messages@),
                our_text@ == hex_lower(ours@),
                self.wf(),
                delivered.wf(),
                self.retries == before.retries,
                self.inflight == before.inflight,
                self.queued == before.queued,
                texts(ids@) == undelivered(views.take(i as int), delivered@.dom(), our_text@),
                self@.pending == awaiting_all(before@.pending, conversation_id@, texts(ids@)),
            decreases messages@.len() - i,
        {
            let ghost here = self@;
            let ghost old_ids = texts(ids@);
            proof {
                assert(views.take(i as int + 1).drop_last() =~= views.take(i as int));
                assert(views.take(i as int + 1).last() == messages@[i as int]@);
            }
            let m = &messages[i];
            if same_text(m.author_id.as_str(), our_text.as_str()) && !delivered.has(&m.message_id) {
                self.pending.insert(m.message_id.clone(), conversation_id.to_owned());
                ids.push(m.message_id.clone());
                proof {
                    assert(texts(ids@) =~= old_ids.push(m.message_id@));
                    assert(texts(ids@).drop_last() =~= old_ids);
                    assert(self@.pending =~= here.pending.insert(m.message_id@, conversation_id@));
                }
            }
            i += 1;
        }
        assert(views.take(messages@.len() as int) =~= views);
        ids
    }

    /// At the start, a wake-up for undelivered messages has come back.
    pub fn restore_finished(
        &mut self,
        conversation_id: &str,
        ids: &Vec<String>,
        reached: bool,
        now: u64,
    )
        requires
            old(self).wf(),
            now <= LAST_INSTANT,
        ensures
            final(self).wf(),
            final(self)@ == if reached {
                old(self)@.scheduled_all(conversation_id@, texts(ids@), true, now as int).telling(
                    notes_for(texts(ids@), DeliveryState::Pending, "delivering"@),
                )
            } else {
                old(self)@.telling(
                    notes_for(texts(ids@), DeliveryState::Queued, "waiting for peer"@),
                )
            },
    {
        if reached {
            self.schedule_all(conversation_id, ids, true, now);
            self.tell_all(ids, DeliveryState::Pending, "delivering");
        } else {
            self.tell_all(ids, DeliveryState::Queued, "waiting for peer");
        }
    }

    /// Forgets the deliveries of a conversation whose history was deleted.
    pub fn forget_conversation(&mut self, conversation_id: &str)
        requires
            old(self).wf(),
        ensures
            final(self).wf(),
            final(self)@ == old(self)@.forgotten(conversation_id@),
    {
        let ghost before = *self;
        let ids = self.waiting_ids(conversation_id);
        self.forget_ids(&ids);
        let key = conversation_id.to_owned();
        self.retries.remove(&key);
        proof {
            assert forall|id: Seq<char>| texts(ids@).to_set().contains(id) <==> before@.waiting(
                conversation_id@,
            ).contains(id) by {
                assert(texts(ids@).contains(id) <==> before@.waiting(conversation_id@).contains(id));
            }
            assert(texts(ids@).to_set() =~= before@.waiting(conversation_id@));
            assert(self@.retries =~= before@.retries.remove(conversation_id@));
        }
    }
}

/// A forgotten conversation has nothing waiting, and the others keep all of theirs.
pub proof fn law_forgetting_is_complete(state: DeliveryView, conversation: Seq<char>, other: Seq<char>)
    ensures
        state.forgotten(conversation).waiting(conversation) == Set::<Seq<char>>::empty(),
        !state.forgotten(conversation).resumes(conversation),
        other != conversation ==> state.forgotten(conversation).waiting(other) == state.waiting(
            other,
        ),
{
    assert(state.forgotten(conversation).waiting(conversation) =~= Set::empty());
    if other != conversation {
        assert(state.forgotten(conversation).waiting(other) =~= state.waiting(other));
    }
}

// ---------------------------------------------------------------------------
// Whom a returning peer concerns
// ---------------------------------------------------------------------------

/// The conversations with this peer that have messages waiting.
pub open spec fn concerned(
    index: Map<Seq<char>, StoredConversation>,
    state: DeliveryView,
    peer: Seq<u8>,
) -> Set<Seq<char>> {
    Set::new(
        |c: Seq<char>|
            index.contains_key(c) && index[c].public@.members.contains(hex_lower(peer)) && exists|
                id: Seq<char>,
            | #[trigger]
                state.waiting(c).contains(id),
    )
}

/// The conversations whose parked deliveries a returning peer concerns, in order.
pub fn conversations_to_resume(
    index: &Table<String, StoredConversation>,
    deliveries: &Deliveries,
    peer: &NodeId,
) -> (ids: Vec<String>)
    requires
        index.wf(),
        deliveries.wf(),
    ensures
        lists(texts(ids@), concerned(index@, deliveries@, peer@)),
{
    let ghost set = concerned(index@, deliveries@, peer@);
    let mut marks: Vec<bool> = Vec::new();
    let mut i: usize = 0;
    while i < index.entries.len()
        invariant
            0 <= i <= index.entries@.len(),
            index.wf(),
            deliveries.wf(),
            set == concerned(index@, deliveries@, peer@),
            marks@.len() == i,
            forall|j: int| 0 <= j < i ==> marks@[j] == set.contains(#[trigger] index.names()[j]),
        decreases index.entries@.len() - i,
    {
        proof {
            index.lemma_entry(i as int);
        }
        let concerned = is_member(&index.entries[i].1.public.members, peer)
            && deliveries.has_waiting(index.entries[i].0.as_str());
        marks.push(concerned);
        i += 1;
    }
    marked_keys(index, &marks, Ghost(set))
}

// ---------------------------------------------------------------------------
// What the user can rely on
// ---------------------------------------------------------------------------

/// Whether the timeline shows a message of ours with this id.
pub open spec fn shows_ours(messages: Seq<MessageView>, id: Seq<char>, ours: Seq<char>) -> bool {
    exists|i: int|
        0 <= i < messages.len() && (#[trigger] messages[i]).message_id == id
            && messages[i].author_id == ours
}

proof fn lemma_shows_ours(messages: Seq<MessageView>, id: Seq<char>, ours: Seq<char>)
    requires
        messages.len() > 0,
    ensures
        shows_ours(messages, id, ours) <==> shows_ours(messages.drop_last(), id, ours) || (
        messages.last().message_id == id && messages.last().author_id == ours),
{
    let shorter = messages.drop_last();
    if shows_ours(shorter, id, ours) {
        let i = choose|i: int|
            0 <= i < shorter.len() && (#[trigger] shorter[i]).message_id == id
                && shorter[i].author_id == ours;
        assert(messages[i] == shorter[i]);
    }
    if shows_ours(messages, id, ours) {
        let i = choose|i: int|
            0 <= i < messages.len() && (#[trigger] messages[i]).message_id == id
                && messages[i].author_id == ours;
        if i < shorter.len() {
            assert(shorter[i] == messages[i]);
        }
    }
    assert(messages[messages.len() - 1] == messages.last());
}

proof fn lemma_settled(
    pending: Map<Seq<char>, Seq<char>>,
    messages: Seq<MessageView>,
    delivered: Set<Seq<char>>,
    ours: Seq<char>,
    id: Seq<char>,
)
    ensures
        ({
            let (rest, notes) = acknowledged(pending, messages, delivered, ours);
            let arrived = delivered.contains(id) && shows_ours(messages, id, ours);
            let note = NoteView::Delivery {
                message_id: id,
                state: DeliveryState::Delivered,
                detail: None,
            };
            &&& rest.contains_key(id) <==> pending.contains_key(id) && !arrived
            &&& rest.contains_key(id) ==> rest[id] == pending[id]
            &&& notes.contains(note) <==> pending.contains_key(id) && arrived
            &&& forall|i: int|
                0 <= i < notes.len() ==> (#[trigger] notes[i]) is Delivery && notes[i]->state
                    == DeliveryState::Delivered && notes[i]->detail is None
        }),
    decreases messages.len(),
{
    if messages.len() > 0 {
        let shorter = messages.drop_last();
        lemma_settled(pending, shorter, delivered, ours, id);
        let m = messages.last();
        let notes = acknowledged(pending, shorter, delivered, ours).1;
        let note = NoteView::Delivery {
            message_id: id,
            state: DeliveryState::Delivered,
            detail: None,
        };
        lemma_shows_ours(messages, id, ours);
        lemma_held_after_push(
            notes,
            NoteView::Delivery {
                message_id: m.message_id,
                state: DeliveryState::Delivered,
                detail: None,
            },
            note,
        );
    }
}

/// A message stops waiting only for a reason: a receipt for it is in and the timeline shows it
/// as ours, or its conversation's timeline no longer has it. A message of ours that the timeline
/// shows and no receipt names goes on waiting.
pub proof fn law_messages_wait_for_their_receipt(
    state: DeliveryView,
    conversation: ConversationView,
    messages: Seq<MessageView>,
    delivered: Set<Seq<char>>,
    ours: Seq<char>,
    id: Seq<char>,
)
    ensures
        ({
            let after = state.published(conversation, messages, delivered, ours);
            let listed = exists|i: int|
                0 <= i < messages.len() && (#[trigger] messages[i]).message_id == id;
            &&& after.pending.contains_key(id) ==> state.pending.contains_key(id)
                && after.pending[id] == state.pending[id]
            &&& state.pending.contains_key(id) && listed && !delivered.contains(id)
                ==> after.pending.contains_key(id)
            &&& state.pending.contains_key(id) && state.pending[id] != conversation.id
                && !delivered.contains(id) ==> after.pending.contains_key(id)
            &&& delivered.contains(id) && shows_ours(messages, id, ours)
                ==> !after.pending.contains_key(id)
            &&& delivered.contains(id) && listed && !shows_ours(messages, id, ours)
                ==> after.pending.contains_key(id) == state.pending.contains_key(id)
            &&& state.pending.contains_key(id) && state.pending[id] == conversation.id && !listed
                ==> !after.pending.contains_key(id)
        }),
{
    let present = state.pending.remove_keys(state.vanished(conversation.id, messages));
    lemma_settled(present, messages, delivered, ours, id);
    let ids = ids_of(messages);
    if exists|i: int| 0 <= i < messages.len() && (#[trigger] messages[i]).message_id == id {
        let i = choose|i: int| 0 <= i < messages.len() && (#[trigger] messages[i]).message_id == id;
        assert(ids[i] == id);
        assert(ids.contains(id));
    }
    if ids.contains(id) {
        let i = choose|i: int| 0 <= i < ids.len() && ids[i] == id;
        assert(messages[i].message_id == id);
    }
}

/// A message is told as delivered exactly if it waited, the timeline shows it as ours and a
/// receipt for it is in. Nothing else is told but the timeline itself, at the end.
pub proof fn law_only_receipts_deliver(
    state: DeliveryView,
    conversation: ConversationView,
    messages: Seq<MessageView>,
    delivered: Set<Seq<char>>,
    ours: Seq<char>,
    id: Seq<char>,
)
    ensures
        ({
            let after = state.published(conversation, messages, delivered, ours);
            let news = after.queued.skip(state.queued.len() as int);
            let note = NoteView::Delivery {
                message_id: id,
                state: DeliveryState::Delivered,
                detail: None,
            };
            &&& after.queued.take(state.queued.len() as int) == state.queued
            &&& news.len() > 0 && news.last() == (NoteView::Conversation { conversation, messages })
            &&& news.contains(note) <==> state.pending.contains_key(id) && delivered.contains(id)
                && shows_ours(messages, id, ours)
            &&& forall|i: int|
                0 <= i < news.len() - 1 ==> (#[trigger] news[i]) is Delivery && news[i]->state
                    == DeliveryState::Delivered && delivered.contains(news[i]->message_id)
                    && state.pending.contains_key(news[i]->message_id)
        }),
{
    let present = state.pending.remove_keys(state.vanished(conversation.id, messages));
    let (pending, notes) = acknowledged(present, messages, delivered, ours);
    let after = state.published(conversation, messages, delivered, ours);
    let news = after.queued.skip(state.queued.len() as int);
    let end = NoteView::Conversation { conversation, messages };
    let note = NoteView::Delivery {
        message_id: id,
        state: DeliveryState::Delivered,
        detail: None,
    };
    assert(news =~= notes.push(end));
    assert(after.queued.take(state.queued.len() as int) =~= state.queued);
    lemma_settled(present, messages, delivered, ours, id);
    lemma_acknowledged(present, messages, delivered, ours);
    assert(present.contains_key(id) || !shows_ours(messages, id, ours)
        || !state.pending.contains_key(id)) by {
        if shows_ours(messages, id, ours) {
            let i = choose|i: int|
                0 <= i < messages.len() && (#[trigger] messages[i]).message_id == id
                    && messages[i].author_id == ours;
            assert(ids_of(messages)[i] == id);
            assert(ids_of(messages).contains(id));
        }
    }
    if notes.contains(note) {
        let i = choose|i: int| 0 <= i < notes.len() && notes[i] == note;
        assert(news[i] == note);
    }
    if news.contains(note) {
        let i = choose|i: int| 0 <= i < news.len() && news[i] == note;
        assert(i < notes.len());
        assert(notes[i] == note);
    }
    assert forall|i: int| 0 <= i < news.len() - 1 implies (#[trigger] news[i]) is Delivery
        && news[i]->state == DeliveryState::Delivered && delivered.contains(news[i]->message_id)
        && state.pending.contains_key(news[i]->message_id) by {
        assert(news[i] == notes[i]);
        let told = notes[i]->message_id;
        lemma_settled(present, messages, delivered, ours, told);
        assert(notes[i] == (NoteView::Delivery {
            message_id: told,
            state: DeliveryState::Delivered,
            detail: None,
        }));
        assert(notes.contains(notes[i]));
    }
}

/// While a message waits its attempts go on as scheduled, and attempts that concern no waiting
/// message end.
pub proof fn law_attempts_go_on_while_messages_wait(
    state: DeliveryView,
    conversation: ConversationView,
    messages: Seq<MessageView>,
    delivered: Set<Seq<char>>,
    ours: Seq<char>,
    c: Seq<char>,
    id: Seq<char>,
)
    requires
        state.retries.contains_key(c),
        state.retries[c].messages.contains(id),
    ensures
        ({
            let after = state.published(conversation, messages, delivered, ours);
            &&& after.inflight == state.inflight
            &&& after.pending.contains_key(id) ==> after.retries.contains_key(c)
                && after.retries[c].messages.contains(id) && after.retries[c].attempts
                == state.retries[c].attempts && after.retries[c].next_attempt
                == state.retries[c].next_attempt
            &&& after.retries.contains_key(c) && !after.pending.contains_key(id)
                ==> !after.retries[c].messages.contains(id)
        }),
{
    let after = state.published(conversation, messages, delivered, ours);
    if after.pending.contains_key(id) {
        assert(state.retries[c].messages.intersect(after.pending.dom()).contains(id));
    }
}

/// A message that was saved here waits for its receipt from then on, is looked after within 400
/// milliseconds unless attempts for its conversation are already set, and is told as pending.
/// Other messages and conversations are not touched.
pub proof fn law_sent_message_waits(
    state: DeliveryView,
    conversation: Seq<char>,
    message: Seq<char>,
    now: int,
    other: Seq<char>,
)
    ensures
        ({
            let after = state.sent(conversation, message, now);
            &&& after.pending.contains_key(message) && after.pending[message] == conversation
            &&& other != message ==> (after.pending.contains_key(other)
                <==> state.pending.contains_key(other)) && (state.pending.contains_key(other)
                ==> after.pending[other] == state.pending[other])
            &&& after.retries.contains_key(conversation)
            &&& after.retries[conversation].messages.contains(message)
            &&& !state.retries.contains_key(conversation) ==> after.retries[conversation].attempts
                == 0 && after.retries[conversation].next_attempt == now + 400
            &&& state.retries.contains_key(conversation) ==> after.retries[conversation].attempts
                == state.retries[conversation].attempts && after.retries[conversation].next_attempt
                == state.retries[conversation].next_attempt
                && state.retries[conversation].messages.subset_of(
                after.retries[conversation].messages,
            )
            &&& other != conversation ==> (after.retries.contains_key(other)
                <==> state.retries.contains_key(other)) && (state.retries.contains_key(other)
                ==> after.retries[other] == state.retries[other])
            &&& after.inflight == state.inflight
            &&& after.queued == state.queued.push(
                NoteView::Delivery {
                    message_id: message,
                    state: DeliveryState::Pending,
                    detail: Some("delivering"@),
                },
            )
        }),
{
    let after = state.sent(conversation, message, now);
    assert(after.queued =~= state.queued.push(
        NoteView::Delivery {
            message_id: message,
            state: DeliveryState::Pending,
            detail: Some("delivering"@),
        },
    ));
}

/// Messages that are looked after are all among their conversation's attempts, with those that
/// were there before; an immediate attempt is due now, and any other keeps its time.
pub proof fn law_scheduled_messages_are_looked_after(
    state: DeliveryView,
    conversation: Seq<char>,
    ids: Seq<Seq<char>>,
    immediate: bool,
    now: int,
    id: Seq<char>,
)
    requires
        ids.len() > 0,
    ensures
        ({
            let after = state.scheduled_all(conversation, ids, immediate, now);
            let known = state.retries.contains_key(conversation);
            let retry = after.retries[conversation];
            &&& after.retries.contains_key(conversation)
            &&& retry.messages.contains(id) <==> ids.contains(id) || (known
                && state.retries[conversation].messages.contains(id))
            &&& immediate ==> retry.next_attempt == now && after.due_set(now).contains(conversation)
            &&& !immediate && known ==> retry.next_attempt
                == state.retries[conversation].next_attempt
            &&& !immediate && !known ==> retry.next_attempt == now + 400
            &&& retry.attempts == if known {
                state.retries[conversation].attempts
            } else {
                0
            }
        }),
    decreases ids.len(),
{
    let shorter = ids.drop_last();
    assert(ids =~= shorter.push(ids.last()));
    if shorter.len() > 0 {
        law_scheduled_messages_are_looked_after(
            state,
            conversation,
            shorter,
            immediate,
            now,
            id,
        );
    } else {
        assert(state.scheduled_all(conversation, shorter, immediate, now) == state);
    }
    lemma_held_or_last(ids, id);
}

/// A wake-up that came back changes nothing of what waits. If a peer was reached, every message
/// of the conversation that waits is looked after and told as pending; if none was and nothing
/// else is under way, each is told as queued.
pub proof fn law_wakes_tell_of_every_waiting_message(
    state: DeliveryView,
    conversation: Seq<char>,
    reached: bool,
    now: int,
    ids: Seq<Seq<char>>,
    id: Seq<char>,
)
    requires
        lists(ids, state.waiting(conversation)),
        state.pending.contains_key(id) && state.pending[id] == conversation,
    ensures
        ({
            let after = state.woken(conversation, reached, now);
            let news = after.queued.skip(state.queued.len() as int);
            let alone = !state.retries.contains_key(conversation) && (
            !state.inflight.contains_key(conversation) || state.inflight[conversation] <= 1);
            &&& after.pending == state.pending
            &&& after.queued.take(state.queued.len() as int) == state.queued
            &&& reached ==> after.retries.contains_key(conversation)
                && after.retries[conversation].messages.contains(id) && news.contains(
                NoteView::Delivery {
                    message_id: id,
                    state: DeliveryState::Pending,
                    detail: Some("delivering"@),
                },
            )
            &&& !reached ==> after.retries == state.retries
            &&& !reached && alone ==> news.contains(
                NoteView::Delivery {
                    message_id: id,
                    state: DeliveryState::Queued,
                    detail: Some("waiting for peer"@),
                },
            )
            &&& !reached && !alone ==> news.len() == 0
        }),
{
    let landed = state.landed(conversation);
    assert(landed.waiting(conversation) =~= state.waiting(conversation));
    lemma_listing(ids, landed.waiting(conversation));
    assert(ids.contains(id));
    let at = choose|i: int| 0 <= i < ids.len() && ids[i] == id;
    let after = state.woken(conversation, reached, now);
    let news = after.queued.skip(state.queued.len() as int);
    if reached {
        lemma_scheduled_all_frame(landed, conversation, ids, false, now);
        law_scheduled_messages_are_looked_after(landed, conversation, ids, false, now, id);
        let notes = notes_for(ids, DeliveryState::Pending, "delivering"@);
        assert(news =~= notes);
        assert(news[at] == notes[at]);
    } else if !landed.inflight.contains_key(conversation) && !landed.retries.contains_key(
        conversation,
    ) {
        let notes = notes_for(ids, DeliveryState::Queued, "waiting for peer"@);
        assert(news =~= notes);
        assert(news[at] == notes[at]);
    } else {
        assert(news =~= Seq::empty());
    }
    assert(after.queued.take(state.queued.len() as int) =~= state.queued);
}

proof fn lemma_still_pending_holds(state: DeliveryView, ids: Seq<Seq<char>>, id: Seq<char>)
    ensures
        state.still_pending(ids).contains(id) <==> ids.contains(id) && state.pending.contains_key(
            id,
        ),
    decreases ids.len(),
{
    if ids.len() > 0 {
        let shorter = ids.drop_last();
        let rest = state.still_pending(shorter);
        lemma_still_pending_holds(state, shorter, id);
        lemma_held_or_last(ids, id);
        if state.pending.contains_key(ids.last()) {
            lemma_held_after_push(rest, ids.last(), id);
        }
    }
}

proof fn lemma_noted(
    ids: Seq<Seq<char>>,
    state: DeliveryState,
    detail: Seq<char>,
    id: Seq<char>,
)
    ensures
        notes_for(ids, state, detail).contains(
            NoteView::Delivery { message_id: id, state, detail: Some(detail) },
        ) <==> ids.contains(id),
{
    let notes = notes_for(ids, state, detail);
    let note = NoteView::Delivery { message_id: id, state, detail: Some(detail) };
    if notes.contains(note) {
        let i = choose|i: int| 0 <= i < notes.len() && notes[i] == note;
        assert(ids[i] == id);
    }
    if ids.contains(id) {
        let i = choose|i: int| 0 <= i < ids.len() && ids[i] == id;
        assert(notes[i] == note);
    }
}

/// An attempt that reached nobody parks the messages: each that still waits is told as queued,
/// and no other; they go on waiting, and no attempt for the conversation is set.
pub proof fn law_failed_attempts_park_messages(
    state: DeliveryView,
    conversation: Seq<char>,
    ids: Seq<Seq<char>>,
    id: Seq<char>,
)
    ensures
        ({
            let after = state.attempt_failed(conversation, ids);
            let news = after.queued.skip(state.queued.len() as int);
            &&& after.pending == state.pending
            &&& after.inflight == state.inflight
            &&& after.retries == state.retries.remove(conversation)
            &&& after.queued.take(state.queued.len() as int) == state.queued
            &&& news.contains(
                NoteView::Delivery {
                    message_id: id,
                    state: DeliveryState::Queued,
                    detail: Some("waiting for peer"@),
                },
            ) <==> ids.contains(id) && state.pending.contains_key(id)
        }),
{
    let kept = state.still_pending(ids);
    let after = state.attempt_failed(conversation, ids);
    let news = after.queued.skip(state.queued.len() as int);
    assert(news =~= notes_for(kept, DeliveryState::Queued, "waiting for peer"@));
    assert(after.queued.take(state.queued.len() as int) =~= state.queued);
    lemma_still_pending_holds(state, ids, id);
    lemma_noted(kept, DeliveryState::Queued, "waiting for peer"@, id);
}

/// An attempt that reached a peer counts, and the next one comes after at least 400
/// milliseconds and within four seconds; each message that still waits is told of the retry.
pub proof fn law_reached_attempts_count(
    state: DeliveryView,
    conversation: Seq<char>,
    ids: Seq<Seq<char>>,
    now: int,
    id: Seq<char>,
)
    requires
        state.retries.contains_key(conversation),
        state.retries[conversation].messages != Set::<Seq<char>>::empty(),
        0 <= state.retries[conversation].attempts <= 255,
    ensures
        ({
            let after = state.attempt_made(conversation, ids, now);
            let news = after.queued.skip(state.queued.len() as int);
            let before = state.retries[conversation];
            let retry = after.retries[conversation];
            &&& after.pending == state.pending
            &&& after.inflight == state.inflight
            &&& after.retries.contains_key(conversation)
            &&& retry.messages == before.messages
            &&& before.attempts < 255 ==> retry.attempts == before.attempts + 1
            &&& before.attempts == 255 ==> retry.attempts == 255
            &&& now + 400 <= retry.next_attempt < now + 4000
            &&& !after.due_set(now).contains(conversation)
            &&& forall|c: Seq<char>|
                c != conversation ==> (#[trigger] after.retries.contains_key(c)
                    <==> state.retries.contains_key(c))
            &&& after.queued.take(state.queued.len() as int) == state.queued
            &&& news.contains(
                NoteView::Delivery {
                    message_id: id,
                    state: DeliveryState::Retrying,
                    detail: Some("delivery retry "@ + decimal(retry.attempts as nat)),
                },
            ) <==> ids.contains(id) && state.pending.contains_key(id)
        }),
{
    let kept = state.still_pending(ids);
    let after = state.attempt_made(conversation, ids, now);
    let attempts = state.next_attempts(conversation);
    let detail = "delivery retry "@ + decimal(attempts as nat);
    let news = after.queued.skip(state.queued.len() as int);
    assert(news =~= notes_for(kept, DeliveryState::Retrying, detail));
    assert(after.queued.take(state.queued.len() as int) =~= state.queued);
    lemma_still_pending_holds(state, ids, id);
    lemma_noted(kept, DeliveryState::Retrying, detail, id);
    law_retries_are_bounded(conversation, attempts as u8);
}

/// A peer that is back has every parked message of the conversation tried at once and told as
/// pending.
pub proof fn law_returning_peer_is_tried_at_once(
    state: DeliveryView,
    conversation: Seq<char>,
    now: int,
    ids: Seq<Seq<char>>,
    id: Seq<char>,
)
    requires
        lists(ids, state.waiting(conversation)),
        !state.retries.contains_key(conversation),
        state.pending.contains_key(id) && state.pending[id] == conversation,
    ensures
        state.resumes(conversation),
        !state.scheduled(conversation, id, false, now).resumes(conversation),
        ({
            let after = state.resumed(conversation, now);
            &&& after.pending == state.pending
            &&& after.due_set(now).contains(conversation)
            &&& after.retries[conversation].messages.contains(id)
            &&& after.queued.skip(state.queued.len() as int).contains(
                NoteView::Delivery {
                    message_id: id,
                    state: DeliveryState::Pending,
                    detail: Some("peer online; delivering"@),
                },
            )
        }),
{
    lemma_listing(ids, state.waiting(conversation));
    assert(state.waiting(conversation).contains(id));
    assert(ids.contains(id));
    lemma_scheduled_all_frame(state, conversation, ids, true, now);
    law_scheduled_messages_are_looked_after(state, conversation, ids, true, now, id);
    let after = state.resumed(conversation, now);
    let notes = notes_for(ids, DeliveryState::Pending, "peer online; delivering"@);
    assert(after.queued.skip(state.queued.len() as int) =~= notes);
    lemma_noted(ids, DeliveryState::Pending, "peer online; delivering"@, id);
}

/// At the start exactly those messages of ours that no receipt names wait, in the order of the
/// timeline.
pub proof fn law_start_finds_undelivered_messages(
    messages: Seq<MessageView>,
    delivered: Set<Seq<char>>,
    ours: Seq<char>,
    id: Seq<char>,
)
    ensures
        undelivered(messages, delivered, ours).contains(id) <==> shows_ours(messages, id, ours)
            && !delivered.contains(id),
    decreases messages.len(),
{
    if messages.len() > 0 {
        let shorter = messages.drop_last();
        let rest = undelivered(shorter, delivered, ours);
        let m = messages.last();
        law_start_finds_undelivered_messages(shorter, delivered, ours, id);
        lemma_shows_ours(messages, id, ours);
        lemma_held_after_push(rest, m.message_id, id);
    }
}

/// Messages that are awaited wait in their conversation, and the others as before.
pub proof fn law_awaited_messages_wait(
    pending: Map<Seq<char>, Seq<char>>,
    conversation: Seq<char>,
    ids: Seq<Seq<char>>,
    id: Seq<char>,
)
    ensures
        ids.contains(id) ==> awaiting_all(pending, conversation, ids).contains_key(id)
            && awaiting_all(pending, conversation, ids)[id] == conversation,
        !ids.contains(id) ==> (awaiting_all(pending, conversation, ids).contains_key(id)
            <==> pending.contains_key(id)) && (pending.contains_key(id) ==> awaiting_all(
            pending,
            conversation,
            ids,
        )[id] == pending[id]),
    decreases ids.len(),
{
    if ids.len() > 0 {
        let shorter = ids.drop_last();
        law_awaited_messages_wait(pending, conversation, shorter, id);
        lemma_held_or_last(ids, id);
    }
}

/// A returning peer concerns a conversation exactly if it is a member and a message of ours
/// there still waits.
pub proof fn law_returning_peer_concerns_its_conversations(
    index: Map<Seq<char>, StoredConversation>,
    state: DeliveryView,
    peer: Seq<u8>,
    c: Seq<char>,
    id: Seq<char>,
)
    ensures
        concerned(index, state, peer).contains(c) ==> index.contains_key(c)
            && index[c].public@.members.contains(hex_lower(peer)),
        index.contains_key(c) && index[c].public@.members.contains(hex_lower(peer))
            && state.pending.contains_key(id) && state.pending[id] == c ==> concerned(
            index,
            state,
            peer,
        ).contains(c),
        (forall|m: Seq<char>| #[trigger] state.pending.contains_key(m) ==> state.pending[m] != c)
            ==> !concerned(index, state, peer).contains(c),
{
    if state.pending.contains_key(id) && state.pending[id] == c {
        assert(state.waiting(c).contains(id));
    }
}

/// Parked deliveries are taken up only where something waits and no attempt is set.
pub proof fn law_only_parked_deliveries_are_resumed(state: DeliveryView, conversation: Seq<char>)
    ensures
        state.retries.contains_key(conversation) ==> !state.resumes(conversation),
        (forall|id: Seq<char>| #[trigger]
            state.pending.contains_key(id) ==> state.pending[id] != conversation)
            ==> !state.resumes(conversation),
{
}

} // verus!
