//! Notification cards: which are shown, which wait, and when they leave. Times are readings of a
//! monotonic clock in milliseconds.
use vstd::prelude::*;
use crate::digits::{decimal, push_decimal};
use crate::message::opt_text;
use crate::text::{lemma_held_after_push, lemma_held_or_last, same_text};

verus! {

/// How long a card takes to appear.
pub const ENTER_MS: u64 = 210;

/// How long a card takes to leave.
pub const LEAVE_MS: u64 = 180;

/// How long after a card was renewed messages of the same conversation still join it.
pub const GROUP_WINDOW_MS: u64 = 30_000;

/// How many cards are shown at once.
pub const MAX_VISIBLE: usize = 4;

/// How many messages a card lists.
pub const MAX_FUSED_ROWS: usize = 4;

/// The latest reading of the clock with which a lifetime can still be set.
pub const LAST_READING: u64 = 0xffff_ffff_ffff_0000;

/// What a click on a card or one of its buttons asks for.
#[derive(Debug, PartialEq, Eq)]
pub enum NotificationAction {
    OpenConversation(String),
    OpenCalls,
    AcceptCall(String),
    DeclineCall(String),
}

impl Clone for NotificationAction {
    fn clone(&self) -> (r: Self)
        ensures
            r == *self,
    {
        match self {
            NotificationAction::OpenConversation(id) => NotificationAction::OpenConversation(
                id.clone(),
            ),
            NotificationAction::OpenCalls => NotificationAction::OpenCalls,
            NotificationAction::AcceptCall(node) => NotificationAction::AcceptCall(node.clone()),
            NotificationAction::DeclineCall(node) => NotificationAction::DeclineCall(node.clone()),
        }
    }
}

/// A button on a card.
#[derive(Debug, PartialEq, Eq)]
pub struct ActionButton {
    pub label: String,
    pub action: NotificationAction,
    pub emphasized: bool,
}

/// What a card is about.
#[derive(Clone, Copy, Debug, PartialEq, Eq, Structural)]
pub enum NotificationKind {
    Message,
    IncomingCall,
    Success,
    Error,
    Info,
}

impl NotificationKind {
    /// How long a card of this kind stays, if not for good.
    pub open spec fn lifetime(self) -> Option<u64> {
        match self {
            NotificationKind::Message => Some(7_000),
            NotificationKind::IncomingCall => None,
            NotificationKind::Success => Some(5_000),
            NotificationKind::Error => Some(9_000),
            NotificationKind::Info => Some(6_000),
        }
    }

    /// When a card of this kind expires that is shown from `now` on.
    pub open spec fn expiry(self, now: u64) -> Option<u64> {
        match self.lifetime() {
            Some(life) => Some((now + life) as u64),
            None => None,
        }
    }

    /// Whether cards of this kind are joined.
    pub open spec fn fuses(self) -> bool {
        self == NotificationKind::Message
    }

    /// How long a card of this kind stays, if not for good, in milliseconds.
    pub fn default_lifetime(self) -> (r: Option<u64>)
        ensures
            r == self.lifetime(),
    {
        match self {
            NotificationKind::Message => Some(7_000),
            NotificationKind::IncomingCall => None,
            NotificationKind::Success => Some(5_000),
            NotificationKind::Error => Some(9_000),
            NotificationKind::Info => Some(6_000),
        }
    }

    fn expires(self, now: u64) -> (r: Option<u64>)
        requires
            now <= LAST_READING,
        ensures
            r == self.expiry(now),
    {
        match self.default_lifetime() {
            Some(life) => Some(now + life),
            None => None,
        }
    }

    /// The heading of a card of this kind.
    pub fn label(self) -> (s: &'static str)
        ensures
            s@ == match self {
                NotificationKind::Message => "MESSAGE"@,
                NotificationKind::IncomingCall => "INCOMING CALL"@,
                NotificationKind::Success => "WIRE"@,
                NotificationKind::Error => "ATTENTION"@,
                NotificationKind::Info => "WIRE"@,
            },
    {
        match self {
            NotificationKind::Message => "MESSAGE",
            NotificationKind::IncomingCall => "INCOMING CALL",
            NotificationKind::Success => "WIRE",
            NotificationKind::Error => "ATTENTION",
            NotificationKind::Info => "WIRE",
        }
    }

    /// Whether cards of this kind are joined.
    pub fn can_fuse(self) -> (r: bool)
        ensures
            r == self.fuses(),
    {
        match self {
            NotificationKind::Message => true,
            _ => false,
        }
    }
}

/// A row of a card.
#[derive(Debug)]
pub struct NotificationEntry {
    pub title: String,
    pub body: String,
    pub action: Option<NotificationAction>,
}

/// A card. Its rows are listed with the newest first.
#[derive(Debug)]
pub struct NotificationGroup {
    pub id: u64,
    pub key: Option<String>,
    pub kind: NotificationKind,
    pub entries: Vec<NotificationEntry>,
    pub hidden_entries: u64,
    pub buttons: Vec<ActionButton>,
    pub created_at: u64,
    pub expires_at: Option<u64>,
    pub leaving_at: Option<u64>,
}

/// The contents of a `NotificationGroup`.
pub struct GroupView {
    pub id: u64,
    pub key: Option<Seq<char>>,
    pub kind: NotificationKind,
    pub entries: Seq<NotificationEntry>,
    pub hidden_entries: int,
    pub buttons: Seq<ActionButton>,
    pub created_at: u64,
    pub expires_at: Option<u64>,
    pub leaving_at: Option<u64>,
}

impl View for NotificationGroup {
    type V = GroupView;

    open spec fn view(&self) -> GroupView {
        GroupView {
            id: self.id,
            key: opt_text(self.key),
            kind: self.kind,
            entries: self.entries@,
            hidden_entries: self.hidden_entries as int,
            buttons: self.buttons@,
            created_at: self.created_at,
            expires_at: self.expires_at,
            leaving_at: self.leaving_at,
        }
    }
}

/// The contents of a list of cards.
pub open spec fn group_views(v: Seq<NotificationGroup>) -> Seq<GroupView> {
    Seq::new(v.len(), |i: int| v[i]@)
}

/// The milliseconds from `from` to `to`, or none.
pub open spec fn elapsed(from: u64, to: u64) -> int {
    if to >= from {
        to - from
    } else {
        0
    }
}

fn since(from: u64, to: u64) -> (ms: u64)
    ensures
        ms == elapsed(from, to),
{
    if to >= from {
        to - from
    } else {
        0
    }
}

impl GroupView {
    /// Whether a message with this key joins the card.
    pub open spec fn takes(self, key: Seq<char>, kind: NotificationKind, now: u64) -> bool {
        &&& self.key == Some(key)
        &&& self.kind == kind
        &&& elapsed(self.created_at, now) <= GROUP_WINDOW_MS
        &&& self.leaving_at is None
    }

    /// The card once a message has joined it.
    pub open spec fn joined_by(self, entry: NotificationEntry, now: u64) -> GroupView {
        let all = seq![entry] + self.entries;
        GroupView {
            entries: if all.len() > MAX_FUSED_ROWS {
                all.drop_last()
            } else {
                all
            },
            hidden_entries: if all.len() > MAX_FUSED_ROWS {
                self.hidden_entries + 1
            } else {
                self.hidden_entries
            },
            created_at: now,
            expires_at: self.kind.expiry(now),
            ..self
        }
    }

    /// The card once its time is noticed to be over.
    pub open spec fn noticed(self, now: u64) -> GroupView {
        if self.leaving_at is None && self.expires_at is Some && now >= self.expires_at->0 {
            GroupView { leaving_at: Some(now), ..self }
        } else {
            self
        }
    }

    /// Whether the card has left.
    pub open spec fn is_gone(self, now: u64) -> bool {
        self.leaving_at is Some && elapsed(self.leaving_at->0, now) >= LEAVE_MS
    }

    /// The card when it comes up after waiting.
    pub open spec fn promoted(self, now: u64) -> GroupView {
        GroupView { created_at: now, expires_at: self.kind.expiry(now), ..self }
    }

    /// The card once it has been asked to leave.
    pub open spec fn dismissed(self, now: u64) -> GroupView {
        GroupView {
            leaving_at: if self.leaving_at is Some {
                self.leaving_at
            } else {
                Some(now)
            },
            ..self
        }
    }

    /// Whether the card appears or leaves just now.
    pub open spec fn animates(self, now: u64) -> bool {
        elapsed(self.created_at, now) < ENTER_MS || (self.leaving_at is Some && elapsed(
            self.leaving_at->0,
            now,
        ) < LEAVE_MS)
    }
}

impl NotificationGroup {
    /// Whether the card lists several messages.
    pub fn is_fused(&self) -> (r: bool)
        ensures
            r == (self.kind.fuses() && (self.entries@.len() > 1 || self.hidden_entries > 0)),
    {
        self.kind.can_fuse() && (self.entries.len() > 1 || self.hidden_entries > 0)
    }

    /// Whether the card appears or leaves just now.
    pub fn is_animating(&self, now: u64) -> (r: bool)
        ensures
            r == self@.animates(now),
    {
        if since(self.created_at, now) < ENTER_MS {
            return true;
        }
        match self.leaving_at {
            Some(started) => since(started, now) < LEAVE_MS,
            None => false,
        }
    }

    /// The heading of a card that lists several messages.
    pub fn fused_heading(&self) -> (s: String)
        requires
            self.entries@.len() + self.hidden_entries <= u64::MAX,
        ensures
            s@ == decimal((self.entries@.len() + self.hidden_entries) as nat) + " NEW MESSAGES"@,
    {
        let mut s: String = String::new();
        push_decimal(&mut s, self.entries.len() as u64 + self.hidden_entries);
        s.append(" NEW MESSAGES");
        assert(s@ =~= decimal((self.entries@.len() + self.hidden_entries) as nat)
            + " NEW MESSAGES"@);
        s
    }

    /// The last line of a card that lists only some of its messages.
    pub fn hidden_line(&self) -> (s: Option<String>)
        ensures
            opt_text(s) == if self.hidden_entries > 0 {
                Some("+"@ + decimal(self.hidden_entries as nat) + " earlier"@)
            } else {
                None
            },
    {
        if self.hidden_entries == 0 {
            return None;
        }
        let mut s: String = "+".to_owned();
        push_decimal(&mut s, self.hidden_entries);
        s.append(" earlier");
        Some(s)
    }
}

/// A new notification.
#[derive(Debug)]
pub struct NotificationSpec {
    pub group_key: Option<String>,
    pub kind: NotificationKind,
    pub title: String,
    pub body: String,
    pub action: Option<NotificationAction>,
    pub buttons: Vec<ActionButton>,
}

/// The cards: those shown, the newest first, and those that wait for a place, the oldest first.
pub struct NotificationStore {
    pub visible: Vec<NotificationGroup>,
    pub pending: Vec<NotificationGroup>,
    pub next_id: u64,
}

/// The contents of a `NotificationStore`.
pub struct StoreView {
    pub visible: Seq<GroupView>,
    pub pending: Seq<GroupView>,
    pub next_id: int,
}

impl View for NotificationStore {
    type V = StoreView;

    open spec fn view(&self) -> StoreView {
        StoreView {
            visible: group_views(self.visible@),
            pending: group_views(self.pending@),
            next_id: self.next_id as int,
        }
    }
}

/// The place of the first card that a message joins, or the number of cards.
pub open spec fn taker(groups: Seq<GroupView>, key: Seq<char>, kind: NotificationKind, now: u64) -> int
    decreases groups.len(),
{
    if groups.len() == 0 {
        0
    } else if groups[0].takes(key, kind, now) {
        0
    } else {
        1 + taker(groups.drop_first(), key, kind, now)
    }
}

proof fn lemma_taker(groups: Seq<GroupView>, key: Seq<char>, kind: NotificationKind, now: u64, at: int)
    requires
        0 <= at <= groups.len(),
        forall|j: int| 0 <= j < at ==> !(#[trigger] groups[j]).takes(key, kind, now),
        at < groups.len() ==> groups[at].takes(key, kind, now),
    ensures
        taker(groups, key, kind, now) == at,
    decreases groups.len(),
{
    if at > 0 {
        let rest = groups.drop_first();
        assert forall|j: int| 0 <= j < at - 1 implies !(#[trigger] rest[j]).takes(
            key,
            kind,
            now,
        ) by {
            assert(rest[j] == groups[j + 1]);
        }
        lemma_taker(rest, key, kind, now, at - 1);
    }
}

/// The card made for a notification that joins none.
pub open spec fn fresh_group(spec: NotificationSpec, id: u64, now: u64) -> GroupView {
    GroupView {
        id,
        key: opt_text(spec.group_key),
        kind: spec.kind,
        entries: seq![
            NotificationEntry { title: spec.title, body: spec.body, action: spec.action },
        ],
        hidden_entries: 0,
        buttons: spec.buttons@,
        created_at: now,
        expires_at: spec.kind.expiry(now),
        leaving_at: None,
    }
}

/// The cards that have not left.
pub open spec fn remaining(groups: Seq<GroupView>, now: u64) -> Seq<GroupView>
    decreases groups.len(),
{
    if groups.len() == 0 {
        Seq::empty()
    } else {
        let rest = remaining(groups.drop_last(), now);
        if groups.last().noticed(now).is_gone(now) {
            rest
        } else {
            rest.push(groups.last().noticed(now))
        }
    }
}

/// The cards without those with a key.
pub open spec fn without_key(groups: Seq<GroupView>, key: Seq<char>) -> Seq<GroupView>
    decreases groups.len(),
{
    if groups.len() == 0 {
        Seq::empty()
    } else {
        let rest = without_key(groups.drop_last(), key);
        if groups.last().key == Some(key) {
            rest
        } else {
            rest.push(groups.last())
        }
    }
}

impl StoreView {
    /// Whether the notification joins a card that is shown.
    pub open spec fn joins(self, spec: NotificationSpec, now: u64) -> bool {
        spec.kind.fuses() && spec.group_key is Some && taker(
            self.visible,
            spec.group_key->0@,
            spec.kind,
            now,
        ) < self.visible.len()
    }

    /// The cards once a notification has come in.
    pub open spec fn pushed(self, spec: NotificationSpec, now: u64) -> StoreView {
        if self.joins(spec, now) {
            let at = taker(self.visible, spec.group_key->0@, spec.kind, now);
            StoreView {
                visible: self.visible.update(
                    at,
                    self.visible[at].joined_by(
                        NotificationEntry { title: spec.title, body: spec.body, action: spec.action },
                        now,
                    ),
                ),
                ..self
            }
        } else {
            let group = fresh_group(spec, self.next_id as u64, now);
            if self.visible.len() < MAX_VISIBLE {
                StoreView {
                    visible: seq![group] + self.visible,
                    next_id: self.next_id + 1,
                    ..self
                }
            } else {
                StoreView {
                    pending: self.pending.push(group),
                    next_id: self.next_id + 1,
                    ..self
                }
            }
        }
    }

    /// The cards once waiting ones have come up as far as there is room.
    pub open spec fn filled(self, now: u64) -> StoreView
        decreases self.pending.len(),
    {
        if self.visible.len() < MAX_VISIBLE && self.pending.len() > 0 {
            StoreView {
                visible: seq![self.pending[0].promoted(now)] + self.visible,
                pending: self.pending.drop_first(),
                ..self
            }.filled(now)
        } else {
            self
        }
    }

    /// The cards once time has passed.
    pub open spec fn advanced(self, now: u64) -> StoreView {
        StoreView { visible: remaining(self.visible, now), ..self }.filled(now)
    }

    /// The cards once those with a key have been asked to leave.
    pub open spec fn key_dismissed(self, key: Seq<char>, now: u64) -> StoreView {
        StoreView {
            visible: Seq::new(
                self.visible.len(),
                |i: int|
                    if self.visible[i].key == Some(key) {
                        self.visible[i].dismissed(now)
                    } else {
                        self.visible[i]
                    },
            ),
            pending: without_key(self.pending, key),
            ..self
        }
    }
}

impl Default for NotificationStore {
    fn default() -> (s: Self)
        ensures
            s.wf(),
            s@ == (StoreView { visible: Seq::empty(), pending: Seq::empty(), next_id: 1 }),
    {
        let s = NotificationStore { visible: Vec::new(), pending: Vec::new(), next_id: 1 };
        assert(s@.visible =~= Seq::empty());
        assert(s@.pending =~= Seq::empty());
        s
    }
}

impl NotificationStore {
    /// No more cards are shown than there is room for.
    pub open spec fn wf(self) -> bool {
        self.visible@.len() <= MAX_VISIBLE
    }

    /// The counters have room for one more.
    pub open spec fn has_room(self) -> bool {
        self.next_id < u64::MAX && forall|i: int|
            0 <= i < self.visible@.len() ==> (#[trigger] self.visible@[i]).hidden_entries < u64::MAX
    }

    /// Takes in a notification: it joins a card that is shown, or makes a card of its own, which
    /// waits where there is no room.
    pub fn push(&mut self, spec: NotificationSpec, now: u64)
        requires
            old(self).wf(),
            old(self).has_room(),
            now <= LAST_READING,
        ensures
            final(self).wf(),
            final(self)@ == old(self)@.pushed(spec, now),
            final(self)@.rows() == old(self)@.rows() + 1,
            old(self)@.rows_fit() ==> final(self)@.rows_fit(),
    {
        let ghost before = *self;
        proof {
            law_push_adds_one_row(self@, spec, now);
        }
        let ghost given = spec;
        if spec.kind.can_fuse() {
            match &spec.group_key {
                Some(key) => {
                    let mut i: usize = 0;
                    while i < self.visible.len() && !self.takes_at(i, key.as_str(), spec.kind, now)
                        invariant
                            0 <= i <= self.visible@.len(),
                            *self == before,
                            forall|j: int|
                                0 <= j < i ==> !(#[trigger] self@.visible[j]).takes(
                                    key@,
                                    spec.kind,
                                    now,
                                ),
                        decreases self.visible@.len() - i,
                    {
                        i += 1;
                    }
                    proof {
                        lemma_taker(self@.visible, key@, spec.kind, now, i as int);
                    }
                    if i < self.visible.len() {
                        let mut group = self.visible.remove(i);
                        group.entries.insert(
                            0,
                            NotificationEntry {
                                title: spec.title,
                                body: spec.body,
                                action: spec.action,
                            },
                        );
                        let ghost all = group.entries@;
                        if group.entries.len() > MAX_FUSED_ROWS {
                            group.entries.pop();
                            group.hidden_entries += 1;
                        }
                        group.created_at = now;
                        group.expires_at = spec.kind.expires(now);
                        proof {
                            let entry = NotificationEntry {
                                title: given.title,
                                body: given.body,
                                action: given.action,
                            };
                            assert(all =~= seq![entry] + before.visible@[i as int].entries@);
                            assert(group@ == before@.visible[i as int].joined_by(entry, now));
                        }
                        let ghost renewed = group@;
                        self.visible.insert(i, group);
                        proof {
                            assert(self@.visible =~= before@.visible.update(i as int, renewed));
                        }
                        return;
                    }
                },
                None => {},
            }
        }
        let mut entries: Vec<NotificationEntry> = Vec::new();
        entries.push(
            NotificationEntry { title: spec.title, body: spec.body, action: spec.action },
        );
        let group = NotificationGroup {
            id: self.next_id,
            key: spec.group_key,
            kind: spec.kind,
            entries,
            hidden_entries: 0,
            buttons: spec.buttons,
            created_at: now,
            expires_at: spec.kind.expires(now),
            leaving_at: None,
        };
        proof {
            assert(group@.entries =~= seq![
                NotificationEntry { title: given.title, body: given.body, action: given.action },
            ]);
            assert(group@ == fresh_group(given, before.next_id, now));
        }
        self.next_id += 1;
        let ghost view = group@;
        if self.visible.len() < MAX_VISIBLE {
            self.visible.insert(0, group);
            assert(self@.visible =~= seq![view] + before@.visible);
        } else {
            self.pending.push(group);
            assert(self@.pending =~= before@.pending.push(view));
        }
    }

    fn takes_at(&self, i: usize, key: &str, kind: NotificationKind, now: u64) -> (r: bool)
        requires
            i < self.visible@.len(),
        ensures
            r == self@.visible[i as int].takes(key@, kind, now),
    {
        let group = &self.visible[i];
        let same_key: bool = match &group.key {
            Some(own) => same_text(own.as_str(), key),
            None => false,
        };
        let staying: bool = match group.leaving_at {
            Some(_) => false,
            None => true,
        };
        same_key && group.kind == kind && since(group.created_at, now) <= GROUP_WINDOW_MS && staying
    }

    /// Asks the cards with a key to leave, and drops those that wait.
    pub fn dismiss_key(&mut self, key: &str, now: u64)
        requires
            old(self).wf(),
        ensures
            final(self).wf(),
            final(self)@ == old(self)@.key_dismissed(key@, now),
    {
        let ghost before = *self;
        let mut i: usize = 0;
        while i < self.visible.len()
            invariant
                0 <= i <= self.visible@.len(),
                self.visible@.len() == before.visible@.len(),
                self.wf(),
                self.pending == before.pending,
                self.next_id == before.next_id,
                forall|j: int|
                    0 <= j < i ==> #[trigger] self@.visible[j] == before@.key_dismissed(
                        key@,
                        now,
                    ).visible[j],
                forall|j: int|
                    i <= j < self.visible@.len() ==> #[trigger] self.visible@[j]
                        == before.visible@[j],
            decreases self.visible@.len() - i,
        {
            let ghost here = *self;
            let matches: bool = match &self.visible[i].key {
                Some(own) => same_text(own.as_str(), key),
                None => false,
            };
            if matches {
                let mut group = self.visible.remove(i);
                match group.leaving_at {
                    Some(_) => {},
                    None => {
                        group.leaving_at = Some(now);
                    },
                }
                let ghost changed = group;
                assert(changed@ == before@.visible[i as int].dismissed(now));
                self.visible.insert(i, group);
                assert(self.visible@ =~= here.visible@.update(i as int, changed));
            }
            assert(self@.visible[i as int] == before@.key_dismissed(key@, now).visible[i as int]);
            assert forall|j: int| 0 <= j < i implies #[trigger] self@.visible[j]
                == before@.key_dismissed(key@, now).visible[j] by {
                assert(self.visible@[j] == here.visible@[j]);
                assert(here@.visible[j] == before@.key_dismissed(key@, now).visible[j]);
            }
            i += 1;
        }
        assert(self@.visible =~= before@.key_dismissed(key@, now).visible);
        let mut kept: Vec<NotificationGroup> = Vec::new();
        let mut waiting: Vec<NotificationGroup> = Vec::new();
        std::mem::swap(&mut waiting, &mut self.pending);
        let ghost all = group_views(waiting@);
        let ghost mut done: int = 0;
        assert(group_views(kept@) =~= Seq::empty());
        assert(all.take(0) =~= Seq::empty());
        while waiting.len() > 0
            invariant
                0 <= done <= all.len(),
                waiting@.len() == all.len() - done,
                group_views(waiting@) == all.skip(done),
                group_views(kept@) == without_key(all.take(done), key@),
            decreases waiting@.len(),
        {
            let ghost old_waiting = waiting@;
            let ghost old_kept = group_views(kept@);
            let group = waiting.remove(0);
            proof {
                assert(group@ == all[done]) by {
                    assert(group_views(old_waiting)[0] == all.skip(done)[0]);
                }
                assert(all.take(done + 1).drop_last() =~= all.take(done));
                assert(all.take(done + 1).last() == all[done]);
                assert(group_views(waiting@) =~= all.skip(done + 1)) by {
                    assert forall|k: int| 0 <= k < waiting@.len() implies group_views(waiting@)[k]
                        == all.skip(done + 1)[k] by {
                        assert(group_views(old_waiting)[k + 1] == all.skip(done)[k + 1]);
                    }
                }
                done = done + 1;
            }
            let matches: bool = match &group.key {
                Some(own) => same_text(own.as_str(), key),
                None => false,
            };
            if !matches {
                let ghost view = group@;
                kept.push(group);
                assert(group_views(kept@) =~= old_kept.push(view));
            }
        }
        assert(all.take(done) =~= all);
        self.pending = kept;
    }

    /// Asks the card with this id to leave.
    pub fn dismiss_id(&mut self, id: u64, now: u64)
        requires
            old(self).wf(),
        ensures
            final(self).wf(),
            final(self)@.pending == old(self)@.pending,
            final(self)@.next_id == old(self)@.next_id,
            ({
                let groups = old(self)@.visible;
                ||| exists|at: int|
                    0 <= at < groups.len() && (#[trigger] groups[at]).id == id && (forall|j: int|
                        0 <= j < at ==> (#[trigger] groups[j]).id != id) && final(self)@.visible
                        == groups.update(at, groups[at].dismissed(now))
                ||| (forall|j: int| 0 <= j < groups.len() ==> (#[trigger] groups[j]).id != id)
                    && final(self)@.visible == groups
            }),
    {
        let ghost before = *self;
        let mut i: usize = 0;
        while i < self.visible.len() && self.visible[i].id != id
            invariant
                0 <= i <= self.visible@.len(),
                *self == before,
                forall|j: int| 0 <= j < i ==> (#[trigger] self@.visible[j]).id != id,
            decreases self.visible@.len() - i,
        {
            i += 1;
        }
        if i < self.visible.len() {
            let mut group = self.visible.remove(i);
            match group.leaving_at {
                Some(_) => {},
                None => {
                    group.leaving_at = Some(now);
                },
            }
            let ghost view = group@;
            self.visible.insert(i, group);
            proof {
                assert(self@.visible =~= before@.visible.update(i as int, view));
                assert(before@.visible[i as int].id == id);
            }
        }
    }

    /// The pointer rests on a card: its time starts anew.
    pub fn hover(&mut self, at: usize, now: u64)
        requires
            old(self).wf(),
            at < old(self).visible@.len(),
            now <= LAST_READING,
        ensures
            final(self).wf(),
            final(self)@ == (StoreView {
                visible: old(self)@.visible.update(
                    at as int,
                    if old(self)@.visible[at as int].expires_at is Some && old(
                        self,
                    )@.visible[at as int].leaving_at is None {
                        GroupView {
                            expires_at: old(self)@.visible[at as int].kind.expiry(now),
                            ..old(self)@.visible[at as int]
                        }
                    } else {
                        old(self)@.visible[at as int]
                    },
                ),
                ..old(self)@
            }),
    {
        let ghost before = *self;
        let mut group = self.visible.remove(at);
        let renews: bool = match (group.expires_at, group.leaving_at) {
            (Some(_), None) => true,
            _ => false,
        };
        if renews {
            group.expires_at = group.kind.expires(now);
        }
        let ghost view = group@;
        self.visible.insert(at, group);
        assert(self@.visible =~= before@.visible.update(at as int, view));
    }

    /// Drops every card.
    pub fn clear(&mut self)
        ensures
            final(self).wf(),
            final(self)@ == (StoreView {
                visible: Seq::empty(),
                pending: Seq::empty(),
                next_id: old(self)@.next_id,
            }),
    {
        self.visible.clear();
        self.pending.clear();
        assert(self@.visible =~= Seq::empty());
        assert(self@.pending =~= Seq::empty());
    }

    /// Lets time pass: cards whose time is over leave, and waiting ones come up.
    pub fn advance(&mut self, now: u64)
        requires
            old(self).wf(),
            now <= LAST_READING,
        ensures
            final(self).wf(),
            final(self)@ == old(self)@.advanced(now),
    {
        let ghost before = *self;
        let mut shown: Vec<NotificationGroup> = Vec::new();
        std::mem::swap(&mut shown, &mut self.visible);
        let ghost all = group_views(shown@);
        let mut kept: Vec<NotificationGroup> = Vec::new();
        let ghost mut done: int = 0;
        assert(group_views(kept@) =~= Seq::empty());
        assert(all.take(0) =~= Seq::empty());
        while shown.len() > 0
            invariant
                now <= LAST_READING,
                0 <= done <= all.len(),
                all.len() <= MAX_VISIBLE,
                shown@.len() == all.len() - done,
                group_views(shown@) == all.skip(done),
                group_views(kept@) == remaining(all.take(done), now),
                kept@.len() <= done,
            decreases shown@.len(),
        {
            let ghost old_shown = shown@;
            let ghost old_kept = group_views(kept@);
            let mut group = shown.remove(0);
            proof {
                assert(group@ == all[done]) by {
                    assert(group_views(old_shown)[0] == all.skip(done)[0]);
                }
                assert(all.take(done + 1).drop_last() =~= all.take(done));
                assert(all.take(done + 1).last() == all[done]);
                assert(group_views(shown@) =~= all.skip(done + 1)) by {
                    assert forall|k: int| 0 <= k < shown@.len() implies group_views(shown@)[k]
                        == all.skip(done + 1)[k] by {
                        assert(group_views(old_shown)[k + 1] == all.skip(done)[k + 1]);
                    }
                }
                done = done + 1;
            }
            match (group.leaving_at, group.expires_at) {
                (None, Some(expiry)) => {
                    if now >= expiry {
                        group.leaving_at = Some(now);
                    }
                },
                _ => {},
            }
            let gone: bool = match group.leaving_at {
                Some(started) => since(started, now) >= LEAVE_MS,
                None => false,
            };
            if !gone {
                let ghost view = group@;
                kept.push(group);
                assert(group_views(kept@) =~= old_kept.push(view));
            }
        }
        assert(all.take(done) =~= all);
        self.visible = kept;
        assert(self@ == (StoreView { visible: remaining(before@.visible, now), ..before@ }));
        let ghost start = self@;
        while self.visible.len() < MAX_VISIBLE && self.pending.len() > 0
            invariant
                now <= LAST_READING,
                self.wf(),
                self@.filled(now) == start.filled(now),
            decreases self.pending@.len(),
        {
            let ghost here = *self;
            let mut group = self.pending.remove(0);
            group.created_at = now;
            group.expires_at = group.kind.expires(now);
            let ghost view = group@;
            self.visible.insert(0, group);
            proof {
                assert(view == here@.pending[0].promoted(now));
                assert(self@.visible =~= seq![view] + here@.visible);
                assert(self@.pending =~= here@.pending.drop_first());
            }
        }
    }

    /// Whether there is any card.
    pub fn has_notifications(&self) -> (r: bool)
        ensures
            r == (self@.visible.len() > 0 || self@.pending.len() > 0),
    {
        self.visible.len() > 0 || self.pending.len() > 0
    }

    /// In how many milliseconds the cards are to be painted again: soon while one of them moves,
    /// else when the first one expires. `out_of_place` says whether a card still slides to its
    /// place.
    pub fn next_repaint(&self, out_of_place: bool, now: u64) -> (r: Option<u64>)
        ensures
            (out_of_place || exists|i: int|
                0 <= i < self.visible@.len() && (#[trigger] self@.visible[i]).animates(now)) ==> r
                == Some(16u64),
            !(out_of_place || exists|i: int|
                0 <= i < self.visible@.len() && (#[trigger] self@.visible[i]).animates(now)) ==> (
            match r {
                Some(delay) => exists|i: int|
                    0 <= i < self.visible@.len() && (#[trigger] self@.visible[i]).expires_at is Some
                        && delay == elapsed(now, self@.visible[i].expires_at->0) && forall|j: int|
                        0 <= j < self.visible@.len() && (#[trigger] self@.visible[j]).expires_at
                            is Some ==> self@.visible[i].expires_at->0
                            <= self@.visible[j].expires_at->0,
                None => forall|i: int|
                    0 <= i < self.visible@.len() ==> (#[trigger] self@.visible[i]).expires_at
                        is None,
            }),
    {
        if out_of_place {
            return Some(16);
        }
        let mut i: usize = 0;
        let mut first: Option<u64> = None;
        while i < self.visible.len()
            invariant
                0 <= i <= self.visible@.len(),
                !out_of_place,
                forall|j: int| 0 <= j < i ==> !(#[trigger] self@.visible[j]).animates(now),
                match first {
                    Some(expiry) => (exists|k: int|
                        0 <= k < i && (#[trigger] self@.visible[k]).expires_at == Some(expiry))
                        && forall|j: int|
                        0 <= j < i && (#[trigger] self@.visible[j]).expires_at is Some ==> expiry
                            <= self@.visible[j].expires_at->0,
                    None => forall|j: int|
                        0 <= j < i ==> (#[trigger] self@.visible[j]).expires_at is None,
                },
            decreases self.visible@.len() - i,
        {
            if self.visible[i].is_animating(now) {
                assert(self@.visible[i as int].animates(now));
                return Some(16);
            }
            match (first, self.visible[i].expires_at) {
                (None, Some(expiry)) => {
                    first = Some(expiry);
                    assert(self@.visible[i as int].expires_at == Some(expiry));
                },
                (Some(best), Some(expiry)) => {
                    if expiry < best {
                        first = Some(expiry);
                        assert(self@.visible[i as int].expires_at == Some(expiry));
                    }
                },
                _ => {},
            }
            i += 1;
        }
        match first {
            Some(expiry) => Some(since(now, expiry)),
            None => None,
        }
    }
}

proof fn lemma_remaining_len(groups: Seq<GroupView>, now: u64)
    ensures
        remaining(groups, now).len() <= groups.len(),
    decreases groups.len(),
{
    if groups.len() > 0 {
        lemma_remaining_len(groups.drop_last(), now);
    }
}

proof fn lemma_filled(state: StoreView, now: u64)
    requires
        state.visible.len() <= MAX_VISIBLE,
    ensures
        state.filled(now).visible.len() <= MAX_VISIBLE,
        state.filled(now).pending.len() > 0 ==> state.filled(now).visible.len() == MAX_VISIBLE,
        state.filled(now).visible.len() + state.filled(now).pending.len() == state.visible.len()
            + state.pending.len(),
    decreases state.pending.len(),
{
    if state.visible.len() < MAX_VISIBLE && state.pending.len() > 0 {
        lemma_filled(
            StoreView {
                visible: seq![state.pending[0].promoted(now)] + state.visible,
                pending: state.pending.drop_first(),
                ..state
            },
            now,
        );
    }
}

/// Once time has passed, a card waits only if no place is free.
pub proof fn law_cards_wait_only_for_room(state: StoreView, now: u64)
    requires
        state.visible.len() <= MAX_VISIBLE,
    ensures
        state.advanced(now).visible.len() <= MAX_VISIBLE,
        state.advanced(now).pending.len() > 0 ==> state.advanced(now).visible.len() == MAX_VISIBLE,
{
    lemma_remaining_len(state.visible, now);
    lemma_filled(StoreView { visible: remaining(state.visible, now), ..state }, now);
}

/// How many notifications the cards stand for, those that are no longer listed among them.
pub open spec fn row_count(groups: Seq<GroupView>) -> int
    decreases groups.len(),
{
    if groups.len() == 0 {
        0
    } else {
        row_count(groups.drop_last()) + groups.last().entries.len() + groups.last().hidden_entries
    }
}

/// Every card of a list has at least one notification and no more than it has room for.
pub open spec fn cards_fit(groups: Seq<GroupView>) -> bool {
    forall|i: int|
        0 <= i < groups.len() ==> 1 <= (#[trigger] groups[i]).entries.len() <= MAX_FUSED_ROWS
}

impl StoreView {
    /// How many notifications all cards stand for.
    pub open spec fn rows(self) -> int {
        row_count(self.visible) + row_count(self.pending)
    }

    /// Every card lists at least one notification and no more than it has room for.
    pub open spec fn rows_fit(self) -> bool {
        cards_fit(self.visible) && cards_fit(self.pending)
    }
}

/// Whether one card of messages took an entry as its first, and no other card changed.
pub open spec fn joined_at(
    before: Seq<GroupView>,
    after: Seq<GroupView>,
    entry: NotificationEntry,
    at: int,
) -> bool {
    &&& 0 <= at < before.len()
    &&& before[at].kind == NotificationKind::Message
    &&& after == before.update(at, after[at])
    &&& after[at].id == before[at].id
    &&& after[at].entries[0] == entry
}

proof fn lemma_row_count_joined(a: Seq<GroupView>, b: Seq<GroupView>)
    ensures
        row_count(a + b) == row_count(a) + row_count(b),
    decreases b.len(),
{
    if b.len() == 0 {
        assert(a + b =~= a);
    } else {
        assert((a + b).drop_last() =~= a + b.drop_last());
        lemma_row_count_joined(a, b.drop_last());
    }
}

proof fn lemma_row_count_one(group: GroupView)
    ensures
        row_count(seq![group]) == group.entries.len() + group.hidden_entries,
{
    assert(seq![group].drop_last() =~= Seq::empty());
    assert(row_count(Seq::<GroupView>::empty()) == 0);
}

proof fn lemma_row_count_updated(groups: Seq<GroupView>, at: int, group: GroupView)
    requires
        0 <= at < groups.len(),
    ensures
        row_count(groups.update(at, group)) == row_count(groups) - groups[at].entries.len()
            - groups[at].hidden_entries + group.entries.len() + group.hidden_entries,
    decreases groups.len(),
{
    let changed = groups.update(at, group);
    if at == groups.len() - 1 {
        assert(changed.drop_last() =~= groups.drop_last());
    } else {
        assert(changed.drop_last() =~= groups.drop_last().update(at, group));
        lemma_row_count_updated(groups.drop_last(), at, group);
    }
}

/// A notification that comes in is counted once: the rows of all cards, listed or not, grow by
/// one. It stands first on one card of messages that is shown, or on a new card, which is the
/// first of those shown where there is room and else the last of those that wait. All other cards
/// stay as they are and where they are. If no card lists more than it has room for, none does
/// afterwards.
pub proof fn law_push_adds_one_row(state: StoreView, spec: NotificationSpec, now: u64)
    requires
        state.visible.len() <= MAX_VISIBLE,
    ensures
        ({
            let after = state.pushed(spec, now);
            let entry = NotificationEntry {
                title: spec.title,
                body: spec.body,
                action: spec.action,
            };
            &&& after.rows() == state.rows() + 1
            &&& after.visible.len() <= MAX_VISIBLE
            &&& state.rows_fit() ==> after.rows_fit()
            &&& if state.joins(spec, now) {
                &&& after.pending == state.pending
                &&& exists|at: int| #[trigger] joined_at(state.visible, after.visible, entry, at)
            } else if state.visible.len() < MAX_VISIBLE {
                &&& after.pending == state.pending
                &&& after.visible.len() == state.visible.len() + 1
                &&& after.visible.drop_first() == state.visible
                &&& after.visible[0].entries == seq![entry]
            } else {
                &&& after.visible == state.visible
                &&& after.pending.len() == state.pending.len() + 1
                &&& after.pending.drop_last() == state.pending
                &&& after.pending.last().entries == seq![entry]
            }
        }),
{
    let after = state.pushed(spec, now);
    let entry = NotificationEntry { title: spec.title, body: spec.body, action: spec.action };
    if state.joins(spec, now) {
        let at = taker(state.visible, spec.group_key->0@, spec.kind, now);
        lemma_first_taker(state.visible, spec.group_key->0@, spec.kind, now);
        let group = state.visible[at].joined_by(entry, now);
        lemma_row_count_updated(state.visible, at, group);
        assert(group.entries[0] == entry);
        assert(joined_at(state.visible, after.visible, entry, at));
        if state.rows_fit() {
            assert(1 <= group.entries.len() <= MAX_FUSED_ROWS);
        }
    } else {
        let group = fresh_group(spec, state.next_id as u64, now);
        lemma_row_count_one(group);
        if state.visible.len() < MAX_VISIBLE {
            lemma_row_count_joined(seq![group], state.visible);
            assert(after.visible.drop_first() =~= state.visible);
            assert forall|i: int| 0 < i < after.visible.len() implies #[trigger] after.visible[i]
                == state.visible[i - 1] by {}
        } else {
            assert(after.pending.drop_last() =~= state.pending);
        }
    }
}

/// Cards of calls stay until they are dismissed.
pub proof fn law_calls_do_not_expire(group: GroupView, now: u64)
    requires
        group.kind == NotificationKind::IncomingCall,
        group.expires_at == group.kind.expiry(group.created_at),
        group.leaving_at is None,
    ensures
        group.noticed(now) == group,
        !group.is_gone(now),
{
}

// ---------------------------------------------------------------------------
// What is notified
// ---------------------------------------------------------------------------

/// The title of a message's card: its author, and the conversation where that is another name.
pub open spec fn message_title(author: Seq<char>, conversation: Seq<char>) -> Seq<char> {
    if conversation == author {
        author
    } else {
        author + " - "@ + conversation
    }
}

/// A card for a message.
pub fn message_spec(
    conversation_id: String,
    conversation_title: String,
    author: String,
    body: String,
) -> (spec: NotificationSpec)
    ensures
        opt_text(spec.group_key) == Some("conversation:"@ + conversation_id@),
        spec.kind == NotificationKind::Message,
        spec.title@ == message_title(author@, conversation_title@),
        spec.body@ == body@,
        spec.action == Some(NotificationAction::OpenConversation(conversation_id)),
        spec.buttons@.len() == 0,
{
    let mut key: String = "conversation:".to_owned();
    key.append(conversation_id.as_str());
    let title: String = if same_text(conversation_title.as_str(), author.as_str()) {
        author
    } else {
        let mut both = author;
        both.append(" - ");
        both.append(conversation_title.as_str());
        both
    };
    NotificationSpec {
        group_key: Some(key),
        kind: NotificationKind::Message,
        title,
        body,
        action: Some(NotificationAction::OpenConversation(conversation_id)),
        buttons: Vec::new(),
    }
}

/// A card for an incoming call.
pub fn incoming_call_spec(node_id: String, peer_name: String) -> (spec: NotificationSpec)
    ensures
        opt_text(spec.group_key) == Some("call:"@ + node_id@),
        spec.kind == NotificationKind::IncomingCall,
        spec.title == peer_name,
        spec.body@ == "Wants to start a voice call"@,
        spec.action == Some(NotificationAction::OpenCalls),
        spec.buttons@.len() == 2,
        spec.buttons@[0].label@ == "Decline"@,
        spec.buttons@[0].action == NotificationAction::DeclineCall(node_id),
        !spec.buttons@[0].emphasized,
        spec.buttons@[1].label@ == "Accept"@,
        spec.buttons@[1].action == NotificationAction::AcceptCall(node_id),
        spec.buttons@[1].emphasized,
{
    let mut key: String = "call:".to_owned();
    key.append(node_id.as_str());
    let mut buttons: Vec<ActionButton> = Vec::new();
    buttons.push(
        ActionButton {
            label: "Decline".to_owned(),
            action: NotificationAction::DeclineCall(node_id.clone()),
            emphasized: false,
        },
    );
    buttons.push(
        ActionButton {
            label: "Accept".to_owned(),
            action: NotificationAction::AcceptCall(node_id),
            emphasized: true,
        },
    );
    NotificationSpec {
        group_key: Some(key),
        kind: NotificationKind::IncomingCall,
        title: peer_name,
        body: "Wants to start a voice call".to_owned(),
        action: Some(NotificationAction::OpenCalls),
        buttons,
    }
}

/// A card that only tells something.
pub fn notice_spec(kind: NotificationKind, key: String, title: String, body: String) -> (spec:
    NotificationSpec)
    ensures
        spec.group_key == Some(key),
        spec.kind == kind,
        spec.title == title,
        spec.body == body,
        spec.action is None,
        spec.buttons@.len() == 0,
{
    NotificationSpec { group_key: Some(key), kind, title, body, action: None, buttons: Vec::new() }
}

// ---------------------------------------------------------------------------
// The window that shows the cards
// ---------------------------------------------------------------------------

/// How far the window of the cards has come in showing them at their size.
#[derive(Clone, Copy, Debug, PartialEq, Eq, Structural)]
pub struct OverlayWindow {
    pub settled_frames: u8,
    pub ready: bool,
}

/// What to do with the window.
#[derive(Clone, Copy, Debug, PartialEq, Eq, Structural)]
pub enum OverlayStep {
    /// Leave it out of sight and give it the wanted size.
    Resize,
    /// Paint one whole frame at that size.
    Settle,
    /// Show it.
    Reveal,
    /// Nothing.
    Stay,
}

/// What to do with the window of the cards. It is shown only after a whole frame was painted at
/// its size, so that nothing of the former size is left to see.
pub fn settle_overlay(window: OverlayWindow, target_changed: bool, size_matches: bool) -> (r: (
    OverlayWindow,
    OverlayStep,
))
    ensures
        r.1 == if !size_matches {
            OverlayStep::Resize
        } else if target_changed || window.settled_frames == 0 {
            OverlayStep::Settle
        } else if !window.ready {
            OverlayStep::Reveal
        } else {
            OverlayStep::Stay
        },
        r.0 == match r.1 {
            OverlayStep::Resize => OverlayWindow { settled_frames: 0, ready: false },
            OverlayStep::Settle => OverlayWindow { settled_frames: 1, ready: window.ready },
            OverlayStep::Reveal => OverlayWindow {
                settled_frames: window.settled_frames,
                ready: true,
            },
            OverlayStep::Stay => window,
        },
{
    let frames: u8 = if target_changed {
        0
    } else {
        window.settled_frames
    };
    if !size_matches {
        (OverlayWindow { settled_frames: 0, ready: false }, OverlayStep::Resize)
    } else if frames == 0 {
        (OverlayWindow { settled_frames: 1, ready: window.ready }, OverlayStep::Settle)
    } else if !window.ready {
        (OverlayWindow { settled_frames: frames, ready: true }, OverlayStep::Reveal)
    } else {
        (window, OverlayStep::Stay)
    }
}

// ---------------------------------------------------------------------------
// What the user can rely on
// ---------------------------------------------------------------------------

proof fn lemma_first_taker(groups: Seq<GroupView>, key: Seq<char>, kind: NotificationKind, now: u64)
    ensures
        0 <= taker(groups, key, kind, now) <= groups.len(),
        taker(groups, key, kind, now) < groups.len() ==> groups[taker(groups, key, kind, now)].takes(
            key,
            kind,
            now,
        ),
        forall|i: int|
            0 <= i < taker(groups, key, kind, now) ==> !(#[trigger] groups[i]).takes(key, kind, now),
    decreases groups.len(),
{
    if groups.len() > 0 && !groups[0].takes(key, kind, now) {
        let rest = groups.drop_first();
        lemma_first_taker(rest, key, kind, now);
        assert forall|i: int| 0 <= i < taker(groups, key, kind, now) implies !(
        #[trigger] groups[i]).takes(key, kind, now) by {
            if i > 0 {
                assert(rest[i - 1] == groups[i]);
            }
        }
    }
}

/// Whether a card is one of messages with this key that was renewed within half a minute and
/// does not leave.
pub open spec fn is_open_for(group: GroupView, key: Seq<char>, now: u64) -> bool {
    &&& group.kind == NotificationKind::Message
    &&& group.key == Some(key)
    &&& now <= group.created_at + 30_000
    &&& group.leaving_at is None
}

/// A message joins a card exactly if one of its own conversation is shown that is open for it;
/// nothing but a message joins any. It becomes the first row of that card, which lists at most
/// four and counts the others, and whose seven seconds start anew.
pub proof fn law_messages_join_their_conversation(
    state: StoreView,
    spec: NotificationSpec,
    now: u64,
)
    requires
        now <= LAST_READING,
    ensures
        state.joins(spec, now) <==> spec.kind == NotificationKind::Message && spec.group_key is Some
            && exists|i: int|
            0 <= i < state.visible.len() && is_open_for(
                #[trigger] state.visible[i],
                spec.group_key->0@,
                now,
            ),
        state.joins(spec, now) ==> exists|at: int|
            0 <= at < state.visible.len() && is_open_for(
                state.visible[at],
                spec.group_key->0@,
                now,
            ) && ({
                let before = state.visible[at];
                let after = (#[trigger] state.pushed(spec, now).visible[at]);
                &&& after.entries[0].title == spec.title
                &&& after.entries[0].body == spec.body
                &&& after.entries[0].action == spec.action
                &&& before.entries.len() < 4 ==> after.entries.drop_first() == before.entries
                    && after.hidden_entries == before.hidden_entries
                &&& before.entries.len() == 4 ==> after.entries.drop_first()
                    == before.entries.drop_last() && after.hidden_entries == before.hidden_entries
                    + 1
                &&& after.expires_at == Some((now + 7_000) as u64)
                &&& after.key == before.key && after.id == before.id
            }),
{
    if spec.kind == NotificationKind::Message && spec.group_key is Some {
        let key = spec.group_key->0@;
        let at = taker(state.visible, key, spec.kind, now);
        lemma_first_taker(state.visible, key, spec.kind, now);
        if state.joins(spec, now) {
            assert(is_open_for(state.visible[at], key, now));
            let entry = NotificationEntry {
                title: spec.title,
                body: spec.body,
                action: spec.action,
            };
            let before = state.visible[at];
            let after = state.pushed(spec, now).visible[at];
            assert(after == before.joined_by(entry, now));
            let all = seq![entry] + before.entries;
            if before.entries.len() < 4 {
                assert(after.entries.drop_first() =~= before.entries);
            } else if before.entries.len() == 4 {
                assert(after.entries == all.drop_last());
                assert(after.entries.drop_first() =~= before.entries.drop_last());
            }
        }
        if exists|i: int|
            0 <= i < state.visible.len() && is_open_for(#[trigger] state.visible[i], key, now) {
            let i = choose|i: int|
                0 <= i < state.visible.len() && is_open_for(#[trigger] state.visible[i], key, now);
            assert(state.visible[i].takes(key, spec.kind, now));
        }
    }
}

/// A card leaves once its time is over, and is gone 180 milliseconds later; before that it stays
/// as it is.
pub proof fn law_cards_leave_when_their_time_is_over(group: GroupView, now: u64, later: u64)
    ensures
        group.leaving_at is None ==> (group.noticed(now).leaving_at is Some <==> group.expires_at
            is Some && group.expires_at->0 <= now),
        group.leaving_at is None && !(group.expires_at is Some && group.expires_at->0 <= now)
            ==> group.noticed(now) == group && !group.is_gone(now),
        group.leaving_at is Some ==> group.noticed(now) == group,
        group.noticed(now).leaving_at == Some(now) && now <= later ==> (group.noticed(now).is_gone(
            later,
        ) <==> later >= now + 180),
        group.dismissed(now).leaving_at is Some,
        group.leaving_at is None ==> group.dismissed(now).leaving_at == Some(now),
        group.leaving_at is Some ==> group.dismissed(now) == group,
{
}

/// How long cards stay: calls for good, and of the others what went wrong for longest.
pub proof fn law_cards_stay_long_enough(now: u64)
    requires
        now <= LAST_READING,
    ensures
        NotificationKind::IncomingCall.expiry(now) is None,
        NotificationKind::Success.expiry(now) == Some((now + 5_000) as u64),
        NotificationKind::Info.expiry(now) == Some((now + 6_000) as u64),
        NotificationKind::Message.expiry(now) == Some((now + 7_000) as u64),
        NotificationKind::Error.expiry(now) == Some((now + 9_000) as u64),
{
}

proof fn lemma_remaining(groups: Seq<GroupView>, now: u64, group: GroupView)
    ensures
        remaining(groups, now).contains(group) <==> exists|i: int|
            0 <= i < groups.len() && (#[trigger] groups[i]).noticed(now) == group && !group.is_gone(
                now,
            ),
    decreases groups.len(),
{
    if groups.len() > 0 {
        let shorter = groups.drop_last();
        let rest = remaining(shorter, now);
        lemma_remaining(shorter, now, group);
        lemma_held_after_push(rest, groups.last().noticed(now), group);
        assert(groups[groups.len() - 1] == groups.last());
        if rest.contains(group) {
            let i = choose|i: int|
                0 <= i < shorter.len() && (#[trigger] shorter[i]).noticed(now) == group
                    && !group.is_gone(now);
            assert(groups[i] == shorter[i]);
        }
        if exists|i: int|
            0 <= i < groups.len() && (#[trigger] groups[i]).noticed(now) == group && !group.is_gone(
                now,
            ) {
            let i = choose|i: int|
                0 <= i < groups.len() && (#[trigger] groups[i]).noticed(now) == group
                    && !group.is_gone(now);
            if i < shorter.len() {
                assert(shorter[i] == groups[i]);
            }
        }
    }
}

proof fn lemma_came_up(state: StoreView, now: u64)
    ensures
        ({
            let after = state.filled(now);
            let came = state.pending.len() - after.pending.len();
            &&& 0 <= came <= state.pending.len()
            &&& after.pending == state.pending.skip(came)
            &&& after.visible.len() == state.visible.len() + came
            &&& after.visible.skip(came) == state.visible
            &&& forall|i: int|
                0 <= i < came ==> #[trigger] after.visible[came - 1 - i]
                    == state.pending[i].promoted(now)
            &&& after.next_id == state.next_id
        }),
    decreases state.pending.len(),
{
    let after = state.filled(now);
    if state.visible.len() < MAX_VISIBLE && state.pending.len() > 0 {
        let next = StoreView {
            visible: seq![state.pending[0].promoted(now)] + state.visible,
            pending: state.pending.drop_first(),
            ..state
        };
        lemma_came_up(next, now);
        let more = next.pending.len() - after.pending.len();
        let came = more + 1;
        assert(next.pending.skip(more) =~= state.pending.skip(came));
        assert(after.visible.skip(came) =~= next.visible.drop_first()) by {
            assert(after.visible.skip(more) =~= next.visible);
            assert(after.visible.skip(came) =~= after.visible.skip(more).drop_first());
        }
        assert(next.visible.drop_first() =~= state.visible);
        assert forall|i: int| 0 <= i < came implies #[trigger] after.visible[came - 1 - i]
            == state.pending[i].promoted(now) by {
            if i == 0 {
                assert(after.visible.skip(more)[0] == next.visible[0]);
            } else {
                assert(after.visible[more - 1 - (i - 1)] == next.pending[i - 1].promoted(now));
            }
        }
    } else {
        assert(after.pending =~= state.pending.skip(0));
        assert(after.visible.skip(0) =~= state.visible);
    }
}

/// As time passes, a shown card that neither leaves nor has expired stays as it is, one that has
/// left goes, and waiting cards come up the oldest first, with their time starting then.
pub proof fn law_time_takes_only_what_is_over(state: StoreView, now: u64, group: GroupView)
    ensures
        ({
            let after = state.advanced(now);
            let came = state.pending.len() - after.pending.len();
            &&& state.visible.contains(group) && group.leaving_at is None && !(group.expires_at
                is Some && group.expires_at->0 <= now) ==> after.visible.contains(group)
            &&& forall|i: int|
                0 <= i < came ==> #[trigger] after.visible[came - 1 - i]
                    == state.pending[i].promoted(now)
            &&& after.pending == state.pending.skip(came)
            &&& forall|i: int|
                came <= i < after.visible.len() ==> !(#[trigger] after.visible[i]).is_gone(now)
                    && exists|k: int|
                    0 <= k < state.visible.len() && (#[trigger] state.visible[k]).noticed(now)
                        == after.visible[i]
        }),
{
    let left = StoreView { visible: remaining(state.visible, now), ..state };
    let after = state.advanced(now);
    lemma_came_up(left, now);
    let came = state.pending.len() - after.pending.len();
    if state.visible.contains(group) && group.leaving_at is None && !(group.expires_at is Some
        && group.expires_at->0 <= now) {
        let k = choose|k: int| 0 <= k < state.visible.len() && state.visible[k] == group;
        assert(state.visible[k].noticed(now) == group);
        lemma_remaining(state.visible, now, group);
        let i = choose|i: int| 0 <= i < left.visible.len() && left.visible[i] == group;
        assert(after.visible.skip(came)[i] == group);
        assert(after.visible[came + i] == group);
    }
    assert forall|i: int| came <= i < after.visible.len() implies !(
    #[trigger] after.visible[i]).is_gone(now) && exists|k: int|
        0 <= k < state.visible.len() && (#[trigger] state.visible[k]).noticed(now)
            == after.visible[i] by {
        let card = after.visible[i];
        assert(after.visible.skip(came)[i - came] == card);
        assert(left.visible[i - came] == card);
        assert(left.visible.contains(card));
        lemma_remaining(state.visible, now, card);
    }
}

proof fn lemma_without_key(groups: Seq<GroupView>, key: Seq<char>, group: GroupView)
    ensures
        without_key(groups, key).contains(group) <==> groups.contains(group) && group.key != Some(
            key,
        ),
    decreases groups.len(),
{
    if groups.len() > 0 {
        lemma_without_key(groups.drop_last(), key, group);
        lemma_held_or_last(groups, group);
        lemma_held_after_push(without_key(groups.drop_last(), key), groups.last(), group);
    }
}

/// Dismissing a key makes every shown card with it leave and drops every waiting one, and
/// touches no other.
pub proof fn law_dismissing_concerns_one_key(
    state: StoreView,
    key: Seq<char>,
    now: u64,
    i: int,
    group: GroupView,
)
    requires
        0 <= i < state.visible.len(),
    ensures
        ({
            let after = state.key_dismissed(key, now);
            &&& after.visible.len() == state.visible.len()
            &&& state.visible[i].key == Some(key) ==> after.visible[i].leaving_at is Some
                && after.visible[i] == (GroupView {
                leaving_at: after.visible[i].leaving_at,
                ..state.visible[i]
            })
            &&& state.visible[i].key != Some(key) ==> after.visible[i] == state.visible[i]
            &&& after.pending.contains(group) <==> state.pending.contains(group) && group.key
                != Some(key)
        }),
{
    lemma_without_key(state.pending, key, group);
}

/// A card moves for 210 milliseconds after it came up and for 180 after it began to leave, and is
/// still else.
pub proof fn law_cards_move_when_they_come_and_go(group: GroupView, now: u64)
    requires
        group.created_at <= now,
        group.leaving_at is Some ==> group.leaving_at->0 <= now,
    ensures
        group.animates(now) <==> now < group.created_at + 210 || (group.leaving_at is Some && now
            < group.leaving_at->0 + 180),
{
}

/// The title of a message's card names its author, and its conversation where that goes by
/// another name.
pub proof fn law_titles_name_the_conversation(author: Seq<char>, conversation: Seq<char>)
    ensures
        message_title(author, author) == author,
        author != conversation ==> message_title(author, conversation) == author + " - "@
            + conversation,
{
}

} // verus!
