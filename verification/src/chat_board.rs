//! What the user interface knows of conversations: their messages, how far these were delivered,
//! and what has not been seen.
use vstd::prelude::*;
use crate::conversation::ChatConversation;
use crate::delivery::DeliveryState;
use crate::digits::hex_lower;
use crate::message::{opt_text, ChatMessage, DeleteScope, MessageDeletion, MessageView};
use crate::node::NodeId;
use crate::roster::opt_key;
use crate::table::Table;
use crate::text::{list_has, same_text, texts};
use crate::timeline::{message_views, ordered, sort_messages};

verus! {

/// How long a message of ours is kept that the service has not echoed yet.
pub const OPTIMISTIC_MS: i64 = 30_000;

/// How old a message may be that is announced when its conversation is first shown.
pub const RECENT_MS: i64 = 600_000;

/// How far the delivery of a message has come, and what is to be said of it.
pub type Progress = (DeliveryState, Option<String>);

/// The conversations as they are shown.
pub struct ChatBoard {
    pub conversations: Table<String, ChatConversation>,
    pub timelines: Table<String, Vec<ChatMessage>>,
    pub delivery: Table<String, Progress>,
    pub selected: Option<String>,
    pub unseen: Table<String, ()>,
    /// The attachments that have been asked for.
    pub requests: Table<String, ()>,
    /// The conversations that have older messages.
    pub older: Table<String, ()>,
    /// Whether the conversations of the start have been loaded.
    pub ready: bool,
}

/// Whether a message is ours.
pub open spec fn is_ours(message: MessageView, ours: Option<Seq<u8>>) -> bool {
    ours is Some && message.author_id == hex_lower(ours->0)
}

/// The ids of messages.
pub open spec fn ids_of(messages: Seq<MessageView>) -> Seq<Seq<char>> {
    Seq::new(messages.len(), |i: int| messages[i].message_id)
}

// ---------------------------------------------------------------------------
// News
// ---------------------------------------------------------------------------

/// The messages of others that are neither known nor deleted.
pub open spec fn unknown_in(
    messages: Seq<MessageView>,
    known: Seq<Seq<char>>,
    ours: Option<Seq<u8>>,
) -> Seq<MessageView>
    decreases messages.len(),
{
    if messages.len() == 0 {
        Seq::empty()
    } else {
        let rest = unknown_in(messages.drop_last(), known, ours);
        let last = messages.last();
        if !known.contains(last.message_id) && last.deletion is None && !is_ours(last, ours) {
            rest.push(last)
        } else {
            rest
        }
    }
}

/// The newest message of others since a time that is not deleted; the later in the list of two
/// of the same time.
pub open spec fn newest_since(messages: Seq<MessageView>, ours: Option<Seq<u8>>, cutoff: int) -> Option<
    MessageView,
>
    decreases messages.len(),
{
    if messages.len() == 0 {
        None
    } else {
        let before = newest_since(messages.drop_last(), ours, cutoff);
        let last = messages.last();
        if last.sent_at >= cutoff && last.deletion is None && !is_ours(last, ours) && (before
            is None || last.sent_at >= before->0.sent_at) {
            Some(last)
        } else {
            before
        }
    }
}

/// What is new in a conversation. Of one that was not shown before, at most the newest message
/// of the last ten minutes is, and only once the start is over.
pub open spec fn news_in(
    known: Option<Seq<MessageView>>,
    ready: bool,
    messages: Seq<MessageView>,
    ours: Option<Seq<u8>>,
    now: int,
) -> Seq<MessageView> {
    match known {
        Some(timeline) => unknown_in(messages, ids_of(timeline), ours),
        None => if ready {
            match newest_since(messages, ours, now - RECENT_MS) {
                Some(message) => seq![message],
                None => Seq::empty(),
            }
        } else {
            Seq::empty()
        },
    }
}

/// Whether a conversation gets a mark: it is not open, and there is a new message of somebody
/// else.
pub fn should_mark_conversation_unseen(
    conversation_is_open: bool,
    new_remote_messages: Option<&Vec<ChatMessage>>,
) -> (r: bool)
    ensures
        r == (!conversation_is_open && new_remote_messages is Some && new_remote_messages->0@.len()
            > 0),
{
    match new_remote_messages {
        Some(messages) => !conversation_is_open && messages.len() > 0,
        None => false,
    }
}

fn by_us(message: &ChatMessage, our_text: &Option<String>) -> (r: bool)
    ensures
        r == (opt_text(*our_text) == Some(message@.author_id)),
{
    match our_text {
        Some(text) => same_text(text.as_str(), message.author_id.as_str()),
        None => false,
    }
}

fn text_of(node: &Option<NodeId>) -> (r: Option<String>)
    ensures
        opt_text(r) == match opt_key(*node) {
            Some(key) => Some(hex_lower(key)),
            None => None,
        },
{
    match node {
        Some(node) => Some(node.to_text()),
        None => None,
    }
}

fn find_unknown(
    messages: &Vec<ChatMessage>,
    timeline: &Vec<ChatMessage>,
    ours: &Option<NodeId>,
) -> (news: Vec<ChatMessage>)
    ensures
        message_views(news@) == unknown_in(
            message_views(messages@),
            ids_of(message_views(timeline@)),
            opt_key(*ours),
        ),
{
    let our_text = text_of(ours);
    let ghost key = opt_key(*ours);
    let ghost all = message_views(messages@);
    let ghost known = ids_of(message_views(timeline@));
    let mut ids: Vec<String> = Vec::new();
    let mut k: usize = 0;
    while k < timeline.len()
        invariant
            0 <= k <= timeline@.len(),
            ids@.len() == k,
            forall|j: int| 0 <= j < k ==> (#[trigger] ids@[j])@ == timeline@[j].message_id@,
        decreases timeline@.len() - k,
    {
        ids.push(timeline[k].message_id.clone());
        k += 1;
    }
    assert(texts(ids@) =~= known);
    let mut news: Vec<ChatMessage> = Vec::new();
    let mut i: usize = 0;
    proof {
        assert(all.take(0) =~= Seq::empty());
        assert(message_views(news@) =~= Seq::empty());
    }
    while i < messages.len()
        invariant
            0 <= i <= messages@.len(),
            all == message_views(messages@),
            texts(ids@) == known,
            opt_text(our_text) == match key {
                Some(key) => Some(hex_lower(key)),
                None => None,
            },
            message_views(news@) == unknown_in(all.take(i as int), known, key),
        decreases messages@.len() - i,
    {
        let ghost before = message_views(news@);
        assert(all.take(i as int + 1).drop_last() =~= all.take(i as int));
        let message = &messages[i];
        if message.deletion.is_none() && !by_us(message, &our_text) && !list_has(
            &ids,
            message.message_id.as_str(),
        ) {
            news.push(message.clone());
            assert(message_views(news@) =~= before.push(message@));
        }
        i += 1;
    }
    assert(all.take(all.len() as int) =~= all);
    news
}

fn find_newest(messages: &Vec<ChatMessage>, ours: &Option<NodeId>, now: i64) -> (news: Vec<
    ChatMessage,
>)
    ensures
        message_views(news@) == match newest_since(
            message_views(messages@),
            opt_key(*ours),
            now - RECENT_MS,
        ) {
            Some(message) => seq![message],
            None => Seq::empty(),
        },
{
    let our_text = text_of(ours);
    let ghost key = opt_key(*ours);
    let ghost all = message_views(messages@);
    let ghost cutoff = now - RECENT_MS;
    let mut newest: Option<usize> = None;
    let mut i: usize = 0;
    assert(all.take(0) =~= Seq::empty());
    while i < messages.len()
        invariant
            0 <= i <= messages@.len(),
            all == message_views(messages@),
            cutoff == now - RECENT_MS,
            opt_text(our_text) == match key {
                Some(key) => Some(hex_lower(key)),
                None => None,
            },
            match newest {
                Some(k) => k < i && newest_since(all.take(i as int), key, cutoff) == Some(
                    all[k as int],
                ),
                None => newest_since(all.take(i as int), key, cutoff) is None,
            },
        decreases messages@.len() - i,
    {
        assert(all.take(i as int + 1).drop_last() =~= all.take(i as int));
        let message = &messages[i];
        assert(all[i as int] == message@);
        if (message.sent_at as i128) >= (now as i128) - (RECENT_MS as i128)
            && message.deletion.is_none() && !by_us(message, &our_text) {
            let later = match newest {
                Some(k) => message.sent_at >= messages[k].sent_at,
                None => true,
            };
            if later {
                newest = Some(i);
            }
        }
        i += 1;
    }
    assert(all.take(all.len() as int) =~= all);
    let mut news: Vec<ChatMessage> = Vec::new();
    match newest {
        Some(k) => {
            news.push(messages[k].clone());
            assert(message_views(news@) =~= seq![all[k as int]]);
        },
        None => {
            assert(message_views(news@) =~= Seq::empty());
        },
    }
    news
}

// ---------------------------------------------------------------------------
// Merging
// ---------------------------------------------------------------------------

/// Messages by their ids; of two with the same id the later counts.
pub open spec fn message_map(messages: Seq<MessageView>) -> Map<Seq<char>, MessageView>
    decreases messages.len(),
{
    if messages.len() == 0 {
        Map::empty()
    } else {
        message_map(messages.drop_last()).insert(messages.last().message_id, messages.last())
    }
}

/// Whether a message is still on its way.
pub open spec fn under_way(delivery: Map<Seq<char>, Progress>, id: Seq<char>) -> bool {
    delivery.contains_key(id) && delivery[id].0 != DeliveryState::Delivered
}

/// Messages by their ids, and how far they were delivered.
pub struct Merge {
    pub messages: Map<Seq<char>, MessageView>,
    pub delivery: Map<Seq<char>, Progress>,
}

/// What becomes of a message that was shown before: it stays where the service lists it, and
/// else only where it is a recent one of ours that is still on its way.
pub open spec fn merge_one(
    merge: Merge,
    message: MessageView,
    ours: Option<Seq<u8>>,
    cutoff: int,
) -> Merge {
    let id = message.message_id;
    if merge.messages.contains_key(id) {
        merge
    } else if message.sent_at >= cutoff && is_ours(message, ours) && under_way(merge.delivery, id) {
        Merge { messages: merge.messages.insert(id, message), ..merge }
    } else {
        Merge { delivery: merge.delivery.remove(id), ..merge }
    }
}

/// What the service lists, together with what stays of what was shown before.
pub open spec fn merged(
    start: Merge,
    existing: Seq<MessageView>,
    ours: Option<Seq<u8>>,
    cutoff: int,
) -> Merge
    decreases existing.len(),
{
    if existing.len() == 0 {
        start
    } else {
        merge_one(merged(start, existing.drop_last(), ours, cutoff), existing.last(), ours, cutoff)
    }
}

/// Whether a timeline holds just these messages, each once and in order.
pub open spec fn lists_all(
    timeline: Seq<MessageView>,
    messages: Map<Seq<char>, MessageView>,
) -> bool {
    &&& ordered(timeline)
    &&& timeline.no_duplicates()
    &&& forall|m: MessageView| #[trigger]
        timeline.contains(m) <==> messages.contains_key(m.message_id) && messages[m.message_id] == m
}

/// The messages in a table.
pub open spec fn views_in(table: Map<Seq<char>, ChatMessage>) -> Map<Seq<char>, MessageView> {
    table.map_values(|m: ChatMessage| m@)
}

/// Whether messages stand under their own ids.
pub open spec fn keyed(messages: Map<Seq<char>, MessageView>) -> bool {
    forall|id: Seq<char>| #[trigger]
        messages.contains_key(id) ==> messages[id].message_id == id
}

proof fn lemma_insert_view(table: Map<Seq<char>, ChatMessage>, id: Seq<char>, m: ChatMessage)
    ensures
        views_in(table.insert(id, m)) == views_in(table).insert(id, m@),
{
    assert(views_in(table.insert(id, m)) =~= views_in(table).insert(id, m@));
}

proof fn lemma_keyed(messages: Seq<MessageView>)
    ensures
        keyed(message_map(messages)),
    decreases messages.len(),
{
    if messages.len() > 0 {
        lemma_keyed(messages.drop_last());
    }
}

proof fn lemma_merged_keyed(
    start: Merge,
    existing: Seq<MessageView>,
    ours: Option<Seq<u8>>,
    cutoff: int,
)
    requires
        keyed(start.messages),
    ensures
        keyed(merged(start, existing, ours, cutoff).messages),
    decreases existing.len(),
{
    if existing.len() > 0 {
        lemma_merged_keyed(start, existing.drop_last(), ours, cutoff);
    }
}

fn index_messages(messages: Vec<ChatMessage>) -> (table: Table<String, ChatMessage>)
    ensures
        table.wf(),
        views_in(table@) == message_map(message_views(messages@)),
{
    let ghost all = message_views(messages@);
    let mut table: Table<String, ChatMessage> = Table::new();
    let mut i: usize = 0;
    proof {
        assert(all.take(0) =~= Seq::empty());
        assert(views_in(table@) =~= Map::empty());
    }
    while i < messages.len()
        invariant
            0 <= i <= messages@.len(),
            all == message_views(messages@),
            table.wf(),
            views_in(table@) == message_map(all.take(i as int)),
        decreases messages@.len() - i,
    {
        assert(all.take(i as int + 1).drop_last() =~= all.take(i as int));
        let message = messages[i].clone();
        proof {
            lemma_insert_view(table@, message.message_id@, message);
        }
        table.insert(message.message_id.clone(), message);
        i += 1;
    }
    assert(all.take(all.len() as int) =~= all);
    table
}

fn list_table(table: &Table<String, ChatMessage>) -> (timeline: Vec<ChatMessage>)
    requires
        table.wf(),
        keyed(views_in(table@)),
    ensures
        lists_all(message_views(timeline@), views_in(table@)),
{
    let mut list: Vec<ChatMessage> = Vec::new();
    let mut i: usize = 0;
    while i < table.entries.len()
        invariant
            0 <= i <= table.entries@.len(),
            list@.len() == i,
            forall|j: int| 0 <= j < i ==> (#[trigger] list@[j])@ == table.entries@[j].1@,
        decreases table.entries@.len() - i,
    {
        list.push(table.entries[i].1.clone());
        i += 1;
    }
    let ghost all = list@;
    let ghost map = views_in(table@);
    proof {
        assert forall|j: int| 0 <= j < all.len() implies (#[trigger] all[j])@.message_id
            == table.entries@[j].0@ && map.contains_key(all[j]@.message_id)
            && map[all[j]@.message_id] == all[j]@ by {
            table.lemma_entry(j);
            assert(map.contains_key(table.entries@[j].0@));
        }
        assert forall|a: int, b: int| 0 <= a < b < all.len() implies all[a]@.message_id
            != all[b]@.message_id by {
            table.lemma_entry(a);
            table.lemma_entry(b);
        }
    }
    let sorted = sort_messages(list);
    proof {
        lemma_same_members(all, sorted@);
        let out = message_views(sorted@);
        assert(all.no_duplicates());
        all.lemma_multiset_has_no_duplicates();
        sorted@.lemma_multiset_has_no_duplicates_conv();
        assert forall|a: int, b: int| 0 <= a < b < out.len() implies out[a] != out[b] by {
            assert(sorted@.contains(sorted@[a]) && all.contains(sorted@[a]));
            assert(sorted@.contains(sorted@[b]) && all.contains(sorted@[b]));
            let i = choose|i: int| 0 <= i < all.len() && all[i] == sorted@[a];
            let j = choose|j: int| 0 <= j < all.len() && all[j] == sorted@[b];
            assert(i != j);
            if i < j {
                assert(all[i]@.message_id != all[j]@.message_id);
            } else {
                assert(all[j]@.message_id != all[i]@.message_id);
            }
        }
        assert forall|m: MessageView| #[trigger]
            out.contains(m) <==> map.contains_key(m.message_id) && map[m.message_id] == m by {
            if out.contains(m) {
                let a = choose|a: int| 0 <= a < out.len() && out[a] == m;
                assert(sorted@.contains(sorted@[a]) && all.contains(sorted@[a]));
                let i = choose|i: int| 0 <= i < all.len() && all[i] == sorted@[a];
                assert(map[all[i]@.message_id] == all[i]@);
            }
            if map.contains_key(m.message_id) && map[m.message_id] == m {
                let k = table.lemma_held(m.message_id);
                assert(all[k]@ == m);
                assert(all.contains(all[k]));
                assert(sorted@.contains(all[k]));
                let a = choose|a: int| 0 <= a < sorted@.len() && sorted@[a] == all[k];
                assert(out[a] == m);
            }
        }
    }
    sorted
}

proof fn lemma_same_members(a: Seq<ChatMessage>, b: Seq<ChatMessage>)
    requires
        a.to_multiset() =~= b.to_multiset(),
    ensures
        forall|m: ChatMessage| #[trigger] a.contains(m) <==> b.contains(m),
{
    broadcast use vstd::seq_lib::group_to_multiset_ensures;

    assert forall|m: ChatMessage| #[trigger] a.contains(m) <==> b.contains(m) by {
        assert(a.contains(m) <==> a.to_multiset().count(m) > 0);
        assert(b.contains(m) <==> b.to_multiset().count(m) > 0);
    }
}

// ---------------------------------------------------------------------------
// The board
// ---------------------------------------------------------------------------

/// The messages that are shown of a conversation, if it was shown before.
pub open spec fn shown_of(timelines: Map<Seq<char>, Vec<ChatMessage>>, id: Seq<char>) -> Option<
    Seq<MessageView>,
> {
    if timelines.contains_key(id) {
        Some(message_views(timelines[id]@))
    } else {
        None
    }
}

/// What came of a conversation that the service has sent.
pub struct ConversationNews {
    /// Whether the conversation is new, so that its members are to be kept in touch with.
    pub is_new: bool,
    /// The messages that are to be announced.
    pub announce: Vec<ChatMessage>,
}

impl ChatBoard {
    /// The tables are in order.
    pub open spec fn wf(self) -> bool {
        &&& self.conversations.wf()
        &&& self.timelines.wf()
        &&& self.delivery.wf()
        &&& self.unseen.wf()
        &&& self.requests.wf()
        &&& self.older.wf()
    }

    /// Nothing yet.
    pub fn new() -> (b: ChatBoard)
        ensures
            b.wf(),
            b.conversations@ == Map::<Seq<char>, ChatConversation>::empty(),
            b.timelines@ == Map::<Seq<char>, Vec<ChatMessage>>::empty(),
            b.delivery@ == Map::<Seq<char>, Progress>::empty(),
            b.selected is None,
            b.unseen@ == Map::<Seq<char>, ()>::empty(),
            b.requests@ == Map::<Seq<char>, ()>::empty(),
            b.older@ == Map::<Seq<char>, ()>::empty(),
            !b.ready,
    {
        ChatBoard {
            conversations: Table::new(),
            timelines: Table::new(),
            delivery: Table::new(),
            selected: None,
            unseen: Table::new(),
            requests: Table::new(),
            older: Table::new(),
            ready: false,
        }
    }

    /// Whether a conversation is in sight: messages are, and it is the one selected.
    pub open spec fn is_open(self, messages_visible: bool, id: Seq<char>) -> bool {
        messages_visible && opt_text(self.selected) == Some(id)
    }

    /// What stays of what was shown, with what the service lists.
    pub open spec fn merge_of(
        self,
        id: Seq<char>,
        messages: Seq<MessageView>,
        ours: Option<Seq<u8>>,
        now: int,
    ) -> Merge {
        merged(
            Merge { messages: message_map(messages), delivery: self.delivery@ },
            match shown_of(self.timelines@, id) {
                Some(timeline) => timeline,
                None => Seq::empty(),
            },
            ours,
            now - OPTIMISTIC_MS,
        )
    }

    fn is_selected(&self, id: &str) -> (r: bool)
        ensures
            r == (opt_text(self.selected) == Some(id@)),
    {
        match &self.selected {
            Some(selected) => same_text(selected.as_str(), id),
            None => false,
        }
    }

    fn news_of(
        &self,
        id: &String,
        messages: &Vec<ChatMessage>,
        ours: &Option<NodeId>,
        now: i64,
    ) -> (news: Vec<ChatMessage>)
        requires
            self.wf(),
        ensures
            message_views(news@) == news_in(
                shown_of(self.timelines@, id@),
                self.ready,
                message_views(messages@),
                opt_key(*ours),
                now as int,
            ),
    {
        match self.timelines.get(id) {
            Some(timeline) => find_unknown(messages, timeline, ours),
            None => {
                if self.ready {
                    find_newest(messages, ours, now)
                } else {
                    let none: Vec<ChatMessage> = Vec::new();
                    assert(message_views(none@) =~= Seq::empty());
                    none
                }
            },
        }
    }

    fn merge_timeline(
        &mut self,
        id: &String,
        messages: Vec<ChatMessage>,
        ours: &Option<NodeId>,
        now: i64,
    ) -> (timeline: Vec<ChatMessage>)
        requires
            old(self).wf(),
        ensures
            final(self).wf(),
            lists_all(
                message_views(timeline@),
                old(self).merge_of(
                    id@,
                    message_views(messages@),
                    opt_key(*ours),
                    now as int,
                ).messages,
            ),
            final(self).delivery@ == old(self).merge_of(
                id@,
                message_views(messages@),
                opt_key(*ours),
                now as int,
            ).delivery,
            final(self).conversations == old(self).conversations,
            final(self).timelines == old(self).timelines,
            final(self).selected == old(self).selected,
            final(self).unseen == old(self).unseen,
            final(self).requests == old(self).requests,
            final(self).older == old(self).older,
            final(self).ready == old(self).ready,
    {
        let our_text = text_of(ours);
        let ghost key = opt_key(*ours);
        let ghost start = Merge {
            messages: message_map(message_views(messages@)),
            delivery: self.delivery@,
        };
        let ghost cutoff = now - OPTIMISTIC_MS;
        proof {
            lemma_keyed(message_views(messages@));
        }
        let mut table = index_messages(messages);
        match self.timelines.find(id) {
            Some(at) => {
                let mut delivery: Table<String, Progress> = Table::new();
                std::mem::swap(&mut delivery, &mut self.delivery);
                let existing = &self.timelines.entries[at].1;
                let ghost all = message_views(existing@);
                let mut i: usize = 0;
                proof {
                    assert(all.take(0) =~= Seq::empty());
                    self.timelines.lemma_entry(at as int);
                }
                while i < existing.len()
                    invariant
                        0 <= i <= existing@.len(),
                        all == message_views(existing@),
                        cutoff == now - OPTIMISTIC_MS,
                        opt_text(our_text) == match key {
                            Some(key) => Some(hex_lower(key)),
                            None => None,
                        },
                        table.wf(),
                        delivery.wf(),
                        views_in(table@) == merged(start, all.take(i as int), key, cutoff).messages,
                        delivery@ == merged(start, all.take(i as int), key, cutoff).delivery,
                    decreases existing@.len() - i,
                {
                    assert(all.take(i as int + 1).drop_last() =~= all.take(i as int));
                    let message = &existing[i];
                    assert(all[i as int] == message@);
                    if !table.has(&message.message_id) {
                        let on_its_way = match delivery.get(&message.message_id) {
                            Some(progress) => progress.0 != DeliveryState::Delivered,
                            None => false,
                        };
                        if (message.sent_at as i128) >= (now as i128) - (OPTIMISTIC_MS as i128)
                            && by_us(message, &our_text) && on_its_way {
                            let kept = message.clone();
                            proof {
                                lemma_insert_view(table@, kept.message_id@, kept);
                            }
                            table.insert(kept.message_id.clone(), kept);
                        } else {
                            let _ = delivery.remove(&message.message_id);
                        }
                    }
                    i += 1;
                }
                assert(all.take(all.len() as int) =~= all);
                std::mem::swap(&mut delivery, &mut self.delivery);
            },
            None => {},
        }
        proof {
            let whole = old(self).merge_of(id@, message_views(messages@), key, now as int);
            assert(views_in(table@) == whole.messages);
            lemma_merged_keyed(
                start,
                match shown_of(old(self).timelines@, id@) {
                    Some(timeline) => timeline,
                    None => Seq::empty(),
                },
                key,
                cutoff,
            );
        }
        list_table(&table)
    }

    /// The service has sent a conversation with its messages. `messages_visible` says whether
    /// messages are in sight at all.
    pub fn apply_conversation(
        &mut self,
        conversation: ChatConversation,
        messages: Vec<ChatMessage>,
        has_more: bool,
        messages_visible: bool,
        our_node_id: &Option<NodeId>,
        now: i64,
    ) -> (r: ConversationNews)
        requires
            old(self).wf(),
        ensures
            final(self).wf(),
            ({
                let id = conversation@.id;
                let listed = message_views(messages@);
                let ours = opt_key(*our_node_id);
                let open = old(self).is_open(messages_visible, id);
                let news = news_in(
                    shown_of(old(self).timelines@, id),
                    old(self).ready,
                    listed,
                    ours,
                    now as int,
                );
                let merge = old(self).merge_of(id, listed, ours, now as int);
                &&& r.is_new == !old(self).conversations@.contains_key(id)
                &&& message_views(r.announce@) == if open {
                    Seq::empty()
                } else {
                    news
                }
                &&& final(self).conversations@ == old(self).conversations@.insert(
                    id,
                    conversation,
                )
                &&& final(self).timelines@.contains_key(id)
                &&& lists_all(message_views(final(self).timelines@[id]@), merge.messages)
                &&& final(self).timelines@.remove(id) == old(self).timelines@.remove(id)
                &&& final(self).delivery@ == merge.delivery
                &&& final(self).older@ == if has_more {
                    old(self).older@.insert(id, ())
                } else {
                    old(self).older@.remove(id)
                }
                &&& opt_text(final(self).selected) == match opt_text(old(self).selected) {
                    Some(selected) => Some(selected),
                    None => Some(id),
                }
                &&& final(self).unseen@ == if !open && news.len() > 0 {
                    old(self).unseen@.insert(id, ())
                } else {
                    old(self).unseen@
                }
                &&& final(self).requests == old(self).requests
                &&& final(self).ready == old(self).ready
            }),
    {
        let id = conversation.id.clone();
        let ghost before_timelines = self.timelines@;
        let is_new = !self.conversations.has(&id);
        let open = messages_visible && self.is_selected(id.as_str());
        let news = self.news_of(&id, &messages, our_node_id, now);
        let mark = should_mark_conversation_unseen(open, Some(&news));
        proof {
            assert(message_views(news@).len() == news@.len());
        }
        let timeline = self.merge_timeline(&id, messages, our_node_id, now);
        self.conversations.insert(id.clone(), conversation);
        self.timelines.insert(id.clone(), timeline);
        assert(self.timelines@.remove(id@) =~= before_timelines.remove(id@));
        if has_more {
            self.older.insert(id.clone(), ());
        } else {
            let _ = self.older.remove(&id);
        }
        if self.selected.is_none() {
            self.selected = Some(id.clone());
        }
        if mark {
            self.unseen.insert(id, ());
        }
        let announce = if open {
            let none: Vec<ChatMessage> = Vec::new();
            assert(message_views(none@) =~= Seq::empty());
            none
        } else {
            news
        };
        ConversationNews { is_new, announce }
    }

    /// The delivery of a message has come further.
    pub fn apply_delivery(&mut self, message_id: String, state: DeliveryState, detail: Option<String>)
        requires
            old(self).wf(),
        ensures
            final(self).wf(),
            final(self).delivery@ == old(self).delivery@.insert(message_id@, (state, detail)),
            final(self).conversations == old(self).conversations,
            final(self).timelines == old(self).timelines,
            final(self).selected == old(self).selected,
            final(self).unseen == old(self).unseen,
            final(self).requests == old(self).requests,
            final(self).older == old(self).older,
            final(self).ready == old(self).ready,
    {
        self.delivery.insert(message_id, (state, detail));
    }

    /// Takes the mark from the conversation that is in sight.
    pub fn mark_visible_conversation_seen(&mut self, messages_visible: bool)
        requires
            old(self).wf(),
        ensures
            final(self).wf(),
            final(self).unseen@ == match opt_text(old(self).selected) {
                Some(id) => if messages_visible {
                    old(self).unseen@.remove(id)
                } else {
                    old(self).unseen@
                },
                None => old(self).unseen@,
            },
            final(self).conversations == old(self).conversations,
            final(self).timelines == old(self).timelines,
            final(self).delivery == old(self).delivery,
            final(self).selected == old(self).selected,
            final(self).requests == old(self).requests,
            final(self).older == old(self).older,
            final(self).ready == old(self).ready,
    {
        if messages_visible {
            match &self.selected {
                Some(id) => {
                    let _ = self.unseen.remove(id);
                },
                None => {},
            }
        }
    }

    /// Whether an attachment is to be asked for: it was not yet.
    pub fn request_attachment(&mut self, hash: String) -> (r: bool)
        requires
            old(self).wf(),
        ensures
            final(self).wf(),
            r == !old(self).requests@.contains_key(hash@),
            final(self).requests@ == old(self).requests@.insert(hash@, ()),
            final(self).conversations == old(self).conversations,
            final(self).timelines == old(self).timelines,
            final(self).delivery == old(self).delivery,
            final(self).selected == old(self).selected,
            final(self).unseen == old(self).unseen,
            final(self).older == old(self).older,
            final(self).ready == old(self).ready,
    {
        let fresh = !self.requests.has(&hash);
        self.requests.insert(hash, ());
        fresh
    }

    /// Asks for the older messages of a conversation once; says whether there are any.
    pub fn load_older(&mut self, conversation_id: &String) -> (r: bool)
        requires
            old(self).wf(),
        ensures
            final(self).wf(),
            r == old(self).older@.contains_key(conversation_id@),
            final(self).older@ == old(self).older@.remove(conversation_id@),
            final(self).conversations == old(self).conversations,
            final(self).timelines == old(self).timelines,
            final(self).delivery == old(self).delivery,
            final(self).selected == old(self).selected,
            final(self).unseen == old(self).unseen,
            final(self).requests == old(self).requests,
            final(self).ready == old(self).ready,
    {
        let there = self.older.has(conversation_id);
        let _ = self.older.remove(conversation_id);
        there
    }
}

// ---------------------------------------------------------------------------
// Changes by the user
// ---------------------------------------------------------------------------

/// The place of the first message with an id, or the count of messages.
pub open spec fn message_place(messages: Seq<MessageView>, id: Seq<char>) -> nat
    decreases messages.len(),
{
    if messages.len() == 0 || messages[0].message_id == id {
        0
    } else {
        1 + message_place(messages.drop_first(), id)
    }
}

/// With the first message of an id shown as deleted, or no longer so.
pub open spec fn with_deletion(
    messages: Seq<MessageView>,
    id: Seq<char>,
    deletion: Option<MessageDeletion>,
) -> Seq<MessageView> {
    let at = message_place(messages, id) as int;
    if at < messages.len() {
        messages.update(at, MessageView { deletion, ..messages[at] })
    } else {
        messages
    }
}

/// How a message shows that was deleted.
pub open spec fn deletion_of(scope: DeleteScope) -> MessageDeletion {
    match scope {
        DeleteScope::Local => MessageDeletion::Local,
        DeleteScope::Everyone => MessageDeletion::Everyone,
    }
}

/// Without some keys.
pub open spec fn without_keys(delivery: Map<Seq<char>, Progress>, ids: Seq<Seq<char>>) -> Map<
    Seq<char>,
    Progress,
> {
    delivery.remove_keys(ids.to_set())
}

proof fn lemma_place(messages: Seq<MessageView>, id: Seq<char>, n: int)
    requires
        0 <= n <= messages.len(),
        forall|j: int| 0 <= j < n ==> (#[trigger] messages[j]).message_id != id,
        n < messages.len() ==> messages[n].message_id == id,
    ensures
        message_place(messages, id) == n,
    decreases n,
{
    if n > 0 {
        let rest = messages.drop_first();
        assert(messages[0].message_id != id);
        assert forall|j: int| 0 <= j < n - 1 implies (#[trigger] rest[j]).message_id != id by {
            assert(rest[j] == messages[j + 1]);
        }
        if n < messages.len() {
            assert(rest[n - 1] == messages[n]);
        }
        lemma_place(rest, id, n - 1);
    }
}

impl ChatBoard {
    fn set_deletion(
        &mut self,
        conversation_id: &String,
        message_id: &str,
        deletion: Option<MessageDeletion>,
    )
        requires
            old(self).wf(),
        ensures
            final(self).wf(),
            shown_of(final(self).timelines@, conversation_id@) == match shown_of(
                old(self).timelines@,
                conversation_id@,
            ) {
                Some(timeline) => Some(with_deletion(timeline, message_id@, deletion)),
                None => None,
            },
            final(self).timelines@.remove(conversation_id@) == old(self).timelines@.remove(
                conversation_id@,
            ),
            final(self).conversations == old(self).conversations,
            final(self).delivery == old(self).delivery,
            final(self).selected == old(self).selected,
            final(self).unseen == old(self).unseen,
            final(self).requests == old(self).requests,
            final(self).older == old(self).older,
            final(self).ready == old(self).ready,
    {
        let ghost before = self.timelines@;
        match self.timelines.remove(conversation_id) {
            Some(timeline) => {
                let mut timeline = timeline;
                let ghost all = message_views(timeline@);
                let mut i: usize = 0;
                while i < timeline.len() && !same_text(
                    timeline[i].message_id.as_str(),
                    message_id,
                )
                    invariant
                        0 <= i <= timeline@.len(),
                        all == message_views(timeline@),
                        forall|j: int|
                            0 <= j < i ==> (#[trigger] all[j]).message_id != message_id@,
                    decreases timeline@.len() - i,
                {
                    assert(all[i as int].message_id != message_id@);
                    i += 1;
                }
                proof {
                    lemma_place(all, message_id@, i as int);
                }
                if i < timeline.len() {
                    let mut message = timeline[i].clone();
                    message.deletion = deletion;
                    timeline.set(i, message);
                }
                assert(message_views(timeline@) =~= with_deletion(all, message_id@, deletion));
                self.timelines.insert(conversation_id.clone(), timeline);
                assert(self.timelines@.remove(conversation_id@) =~= before.remove(
                    conversation_id@,
                ));
            },
            None => {},
        }
    }

    /// Shows a message as deleted; its delivery is no longer followed.
    pub fn delete_chat_message(
        &mut self,
        conversation_id: &String,
        message_id: &String,
        scope: DeleteScope,
    )
        requires
            old(self).wf(),
        ensures
            final(self).wf(),
            shown_of(final(self).timelines@, conversation_id@) == match shown_of(
                old(self).timelines@,
                conversation_id@,
            ) {
                Some(timeline) => Some(
                    with_deletion(timeline, message_id@, Some(deletion_of(scope))),
                ),
                None => None,
            },
            final(self).timelines@.remove(conversation_id@) == old(self).timelines@.remove(
                conversation_id@,
            ),
            final(self).delivery@ == old(self).delivery@.remove(message_id@),
            final(self).conversations == old(self).conversations,
            final(self).selected == old(self).selected,
            final(self).unseen == old(self).unseen,
            final(self).requests == old(self).requests,
            final(self).older == old(self).older,
            final(self).ready == old(self).ready,
    {
        let deletion = match scope {
            DeleteScope::Local => MessageDeletion::Local,
            DeleteScope::Everyone => MessageDeletion::Everyone,
        };
        self.set_deletion(conversation_id, message_id.as_str(), Some(deletion));
        let _ = self.delivery.remove(message_id);
    }

    /// Shows a message again.
    pub fn restore_chat_message(&mut self, conversation_id: &String, message_id: &str)
        requires
            old(self).wf(),
        ensures
            final(self).wf(),
            shown_of(final(self).timelines@, conversation_id@) == match shown_of(
                old(self).timelines@,
                conversation_id@,
            ) {
                Some(timeline) => Some(with_deletion(timeline, message_id@, None)),
                None => None,
            },
            final(self).timelines@.remove(conversation_id@) == old(self).timelines@.remove(
                conversation_id@,
            ),
            final(self).delivery == old(self).delivery,
            final(self).conversations == old(self).conversations,
            final(self).selected == old(self).selected,
            final(self).unseen == old(self).unseen,
            final(self).requests == old(self).requests,
            final(self).older == old(self).older,
            final(self).ready == old(self).ready,
    {
        self.set_deletion(conversation_id, message_id, None);
    }

    /// Empties a conversation; the delivery of its messages is no longer followed.
    pub fn clear_chat_history(&mut self, conversation_id: &String)
        requires
            old(self).wf(),
        ensures
            final(self).wf(),
            shown_of(final(self).timelines@, conversation_id@) == match shown_of(
                old(self).timelines@,
                conversation_id@,
            ) {
                Some(_) => Some(Seq::<MessageView>::empty()),
                None => None,
            },
            final(self).timelines@.remove(conversation_id@) == old(self).timelines@.remove(
                conversation_id@,
            ),
            final(self).delivery@ == match shown_of(old(self).timelines@, conversation_id@) {
                Some(timeline) => without_keys(old(self).delivery@, ids_of(timeline)),
                None => old(self).delivery@,
            },
            final(self).conversations == old(self).conversations,
            final(self).selected == old(self).selected,
            final(self).unseen == old(self).unseen,
            final(self).requests == old(self).requests,
            final(self).older == old(self).older,
            final(self).ready == old(self).ready,
    {
        let ghost before = self.timelines@;
        let ghost progress = self.delivery@;
        match self.timelines.remove(conversation_id) {
            Some(timeline) => {
                let ghost ids = ids_of(message_views(timeline@));
                let mut i: usize = 0;
                assert(self.delivery@ =~= without_keys(progress, ids.take(0)));
                while i < timeline.len()
                    invariant
                        0 <= i <= timeline@.len(),
                        ids == ids_of(message_views(timeline@)),
                        self.delivery.wf(),
                        self.delivery@ == without_keys(progress, ids.take(i as int)),
                        self.conversations == old(self).conversations,
                        self.selected == old(self).selected,
                        self.unseen == old(self).unseen,
                        self.requests == old(self).requests,
                        self.older == old(self).older,
                        self.ready == old(self).ready,
                        self.timelines.wf(),
                        self.timelines@ == before.remove(conversation_id@),
                    decreases timeline@.len() - i,
                {
                    let _ = self.delivery.remove(&timeline[i].message_id);
                    proof {
                        let short = ids.take(i as int);
                        let long = ids.take(i as int + 1);
                        assert(long =~= short.push(ids[i as int]));
                        assert forall|k: Seq<char>|
                            long.to_set().contains(k) <==> short.to_set().contains(k) || k
                                == ids[i as int] by {
                            if long.contains(k) {
                                let j = choose|j: int| 0 <= j < long.len() && long[j] == k;
                                if j < i {
                                    assert(short[j] == k);
                                }
                            }
                            if short.contains(k) {
                                let j = choose|j: int| 0 <= j < short.len() && short[j] == k;
                                assert(long[j] == k);
                            }
                            assert(long[i as int] == ids[i as int]);
                        }
                        assert(self.delivery@ =~= without_keys(progress, long));
                    }
                    i += 1;
                }
                assert(ids.take(ids.len() as int) =~= ids);
                let none: Vec<ChatMessage> = Vec::new();
                assert(message_views(none@) =~= Seq::empty());
                self.timelines.insert(conversation_id.clone(), none);
                assert(self.timelines@.remove(conversation_id@) =~= before.remove(
                    conversation_id@,
                ));
            },
            None => {},
        }
    }

    /// Shows a message of ours at once, and follows its delivery.
    pub fn show_sent_message(&mut self, conversation_id: &String, message: ChatMessage)
        requires
            old(self).wf(),
        ensures
            final(self).wf(),
            shown_of(final(self).timelines@, conversation_id@) == Some(
                (match shown_of(old(self).timelines@, conversation_id@) {
                    Some(timeline) => timeline,
                    None => Seq::empty(),
                }).push(message@),
            ),
            final(self).timelines@.remove(conversation_id@) == old(self).timelines@.remove(
                conversation_id@,
            ),
            final(self).delivery@ == old(self).delivery@.insert(
                message@.message_id,
                (DeliveryState::Pending, None),
            ),
            final(self).conversations == old(self).conversations,
            final(self).selected == old(self).selected,
            final(self).unseen == old(self).unseen,
            final(self).requests == old(self).requests,
            final(self).older == old(self).older,
            final(self).ready == old(self).ready,
    {
        let ghost before = self.timelines@;
        self.delivery.insert(message.message_id.clone(), (DeliveryState::Pending, None));
        let mut timeline: Vec<ChatMessage> = match self.timelines.remove(conversation_id) {
            Some(timeline) => timeline,
            None => {
                let none: Vec<ChatMessage> = Vec::new();
                assert(message_views(none@) =~= Seq::empty());
                none
            },
        };
        let ghost shown = message_views(timeline@);
        timeline.push(message);
        assert(message_views(timeline@) =~= shown.push(message@));
        self.timelines.insert(conversation_id.clone(), timeline);
        assert(self.timelines@.remove(conversation_id@) =~= before.remove(conversation_id@));
    }
}

} // verus!
