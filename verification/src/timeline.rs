//! Timelines: the messages of a document, each once, marked as deleted where they are, in order.
use vstd::prelude::*;
use crate::message::{
    message_id_form, ChatMessage, MessageDeletion, MessageView, MAX_MESSAGE_BYTES,
};
use crate::records::{record_fault, ReplicatedDeletion};
use crate::table::Table;
use crate::text::{lemma_text_lt_total, lemma_text_lt_transitive, same_text, text_lt, Relation};

verus! {

/// The most bytes a record other than its body adds to a message.
pub const RECORD_SLACK: u64 = 16_384;

/// Whether a stored entry of this many bytes may hold a message.
pub fn message_size_fits(len: u64) -> (r: bool)
    ensures
        r == (0 < len <= MAX_MESSAGE_BYTES + RECORD_SLACK),
{
    0 < len && len <= MAX_MESSAGE_BYTES as u64 + RECORD_SLACK
}

/// Whether a stored entry of this many bytes may hold a deletion or a receipt.
pub fn record_size_fits(len: u64) -> (r: bool)
    ensures
        r == (0 < len <= RECORD_SLACK),
{
    0 < len && len <= RECORD_SLACK
}

// ---------------------------------------------------------------------------
// The order of messages
// ---------------------------------------------------------------------------

/// Whether `a` may stand before `b`.
pub open spec fn in_order(a: MessageView, b: MessageView) -> bool {
    !b.precedes(a)
}

/// Whether the messages stand in order.
pub open spec fn ordered(list: Seq<MessageView>) -> bool {
    forall|i: int, j: int| 0 <= i < j < list.len() ==> in_order(#[trigger] list[i], #[trigger] list[j])
}

/// The contents of a list of messages.
pub open spec fn message_views(v: Seq<ChatMessage>) -> Seq<MessageView> {
    Seq::new(v.len(), |i: int| v[i]@)
}

/// Of two messages at different places one comes first, and never both.
pub proof fn law_message_order_is_total(a: MessageView, b: MessageView)
    ensures
        a.precedes(b) || a.ties(b) || b.precedes(a),
        !(a.precedes(b) && b.precedes(a)),
        a.ties(b) ==> !a.precedes(b),
        !a.precedes(a),
{
    lemma_text_lt_total(a.author_id, b.author_id);
    lemma_text_lt_total(a.message_id, b.message_id);
    lemma_text_lt_total(a.author_id, a.author_id);
    lemma_text_lt_total(a.message_id, a.message_id);
}

/// The order of messages is transitive.
pub proof fn law_message_order_is_transitive(a: MessageView, b: MessageView, c: MessageView)
    requires
        in_order(a, b),
        in_order(b, c),
    ensures
        in_order(a, c),
        a.precedes(b) || b.precedes(c) ==> a.precedes(c),
{
    law_message_order_is_total(a, b);
    law_message_order_is_total(b, c);
    law_message_order_is_total(a, c);
    if a.sent_at == b.sent_at && b.sent_at == c.sent_at {
        if text_lt(a.author_id, b.author_id) && text_lt(b.author_id, c.author_id) {
            lemma_text_lt_transitive(a.author_id, b.author_id, c.author_id);
        }
        lemma_text_lt_total(a.author_id, c.author_id);
        lemma_text_lt_total(a.author_id, b.author_id);
        lemma_text_lt_total(b.author_id, c.author_id);
        if text_lt(a.message_id, b.message_id) && text_lt(b.message_id, c.message_id) {
            lemma_text_lt_transitive(a.message_id, b.message_id, c.message_id);
        }
    }
}

/// Merges two ordered lists.
fn merge(a: Vec<ChatMessage>, b: Vec<ChatMessage>) -> (r: Vec<ChatMessage>)
    requires
        ordered(message_views(a@)),
        ordered(message_views(b@)),
    ensures
        ordered(message_views(r@)),
        r@.to_multiset() =~= a@.to_multiset().add(b@.to_multiset()),
{
    broadcast use vstd::seq_lib::group_to_multiset_ensures;

    let ghost all = a@.to_multiset().add(b@.to_multiset());
    let mut a = a;
    let mut b = b;
    let mut back: Vec<ChatMessage> = Vec::new();
    while a.len() > 0 || b.len() > 0
        invariant
            ordered(message_views(a@)),
            ordered(message_views(b@)),
            all =~= a@.to_multiset().add(b@.to_multiset()).add(back@.to_multiset()),
            forall|i: int, j: int|
                0 <= i < j < back@.len() ==> in_order(#[trigger] back@[j]@, #[trigger] back@[i]@),
            forall|i: int, j: int|
                0 <= i < a@.len() && 0 <= j < back@.len() ==> in_order(
                    #[trigger] a@[i]@,
                    #[trigger] back@[j]@,
                ),
            forall|i: int, j: int|
                0 <= i < b@.len() && 0 <= j < back@.len() ==> in_order(
                    #[trigger] b@[i]@,
                    #[trigger] back@[j]@,
                ),
        decreases a@.len() + b@.len(),
    {
        broadcast use vstd::seq_lib::group_to_multiset_ensures;

        let from_a: bool = if a.len() == 0 {
            false
        } else if b.len() == 0 {
            true
        } else {
            match b[b.len() - 1].relate(&a[a.len() - 1]) {
                Relation::Before => true,
                _ => false,
            }
        };
        let ghost old_a = a@;
        let ghost old_b = b@;
        proof {
            lemma_ordered_last(old_a);
            lemma_ordered_last(old_b);
            if old_a.len() > 0 && old_b.len() > 0 {
                law_message_order_is_total(old_a.last()@, old_b.last()@);
                assert forall|i: int| 0 <= i < old_b.len() && from_a implies in_order(
                    #[trigger] old_b[i]@,
                    old_a.last()@,
                ) by {
                    law_message_order_is_transitive(old_b[i]@, old_b.last()@, old_a.last()@);
                }
                assert forall|i: int| 0 <= i < old_a.len() && !from_a implies in_order(
                    #[trigger] old_a[i]@,
                    old_b.last()@,
                ) by {
                    law_message_order_is_transitive(old_a[i]@, old_a.last()@, old_b.last()@);
                }
            }
        }
        if from_a {
            let m = a.pop().unwrap();
            proof {
                lemma_ordered_shorter(old_a);
                assert(old_a =~= a@.push(m));
                assert(old_a.to_multiset() =~= a@.to_multiset().insert(m));
            }
            back.push(m);
        } else {
            let m = b.pop().unwrap();
            proof {
                lemma_ordered_shorter(old_b);
                assert(old_b =~= b@.push(m));
                assert(old_b.to_multiset() =~= b@.to_multiset().insert(m));
            }
            back.push(m);
        }
    }
    assert(a@ =~= Seq::empty());
    assert(b@ =~= Seq::empty());
    let mut r: Vec<ChatMessage> = Vec::new();
    while back.len() > 0
        invariant
            all =~= back@.to_multiset().add(r@.to_multiset()),
            forall|i: int, j: int|
                0 <= i < j < back@.len() ==> in_order(#[trigger] back@[j]@, #[trigger] back@[i]@),
            ordered(message_views(r@)),
            forall|i: int, j: int|
                0 <= i < r@.len() && 0 <= j < back@.len() ==> in_order(
                    #[trigger] r@[i]@,
                    #[trigger] back@[j]@,
                ),
        decreases back@.len(),
    {
        broadcast use vstd::seq_lib::group_to_multiset_ensures;

        let ghost old_back = back@;
        let ghost old_r = r@;
        let m = back.pop().unwrap();
        assert(old_back =~= back@.push(m));
        assert(old_back.to_multiset() =~= back@.to_multiset().insert(m));
        r.push(m);
        assert(ordered(message_views(r@))) by {
            assert forall|i: int, j: int| 0 <= i < j < r@.len() implies in_order(
                #[trigger] message_views(r@)[i],
                #[trigger] message_views(r@)[j],
            ) by {
                if j < old_r.len() {
                    assert(in_order(message_views(old_r)[i], message_views(old_r)[j]));
                } else {
                    assert(in_order(old_r[i]@, old_back[old_back.len() - 1]@));
                }
            }
        }
    }
    assert(back@ =~= Seq::empty());
    r
}

proof fn lemma_ordered_last(v: Seq<ChatMessage>)
    requires
        ordered(message_views(v)),
    ensures
        forall|i: int| 0 <= i < v.len() ==> in_order(#[trigger] v[i]@, v.last()@),
{
    assert forall|i: int| 0 <= i < v.len() implies in_order(#[trigger] v[i]@, v.last()@) by {
        law_message_order_is_total(v[i]@, v[i]@);
        if i < v.len() - 1 {
            assert(in_order(message_views(v)[i], message_views(v)[v.len() - 1]));
        }
    }
}

proof fn lemma_ordered_shorter(v: Seq<ChatMessage>)
    requires
        ordered(message_views(v)),
        v.len() > 0,
    ensures
        ordered(message_views(v.drop_last())),
{
    let w = v.drop_last();
    assert forall|i: int, j: int| 0 <= i < j < w.len() implies in_order(
        #[trigger] message_views(w)[i],
        #[trigger] message_views(w)[j],
    ) by {
        assert(in_order(message_views(v)[i], message_views(v)[j]));
    }
}

/// Puts messages in order.
pub fn sort_messages(list: Vec<ChatMessage>) -> (r: Vec<ChatMessage>)
    ensures
        ordered(message_views(r@)),
        r@.to_multiset() =~= list@.to_multiset(),
    decreases list@.len(),
{
    broadcast use vstd::seq_lib::group_to_multiset_ensures;

    let mut list = list;
    if list.len() < 2 {
        return list;
    }
    let ghost whole = list@;
    let half: usize = list.len() / 2;
    let tail = list.split_off(half);
    proof {
        assert(whole =~= list@ + tail@);
        vstd::seq_lib::lemma_multiset_commutative(list@, tail@);
    }
    let first = sort_messages(list);
    let second = sort_messages(tail);
    merge(first, second)
}

// ---------------------------------------------------------------------------
// From the entries of a document to a timeline
// ---------------------------------------------------------------------------

/// A message as an entry of a document, with the identity that wrote the entry.
pub struct MessageEntry {
    pub message: ChatMessage,
    pub author: String,
}

/// A deletion as an entry of a document, with the identity that wrote the entry.
pub struct DeletionEntry {
    pub deletion: ReplicatedDeletion,
    pub author: String,
}

/// Whether entry `k` is the first valid one for its message.
pub open spec fn leads(entries: Seq<MessageEntry>, k: int) -> bool {
    &&& 0 <= k < entries.len()
    &&& entries[k].message@.fault() is None
    &&& forall|j: int|
        0 <= j < k && #[trigger] entries[j].message@.fault() is None ==> entries[j].message.message_id@
            != entries[k].message.message_id@
}

/// Whether the writer of a message's entry has deleted it for everyone.
pub open spec fn deleted_by_author(
    deletions: Seq<DeletionEntry>,
    message_id: Seq<char>,
    author: Seq<char>,
) -> bool {
    exists|d: int|
        0 <= d < deletions.len() && record_fault(
            deletions[d].deletion.version as int,
            deletions[d].deletion.message_id@,
        ) is None && #[trigger] deletions[d].deletion.message_id@ == message_id
            && deletions[d].author@ == author
}

/// How a message shows: hidden on this device, deleted by its author, or as it is.
pub open spec fn deletion_shown(
    entry: MessageEntry,
    deletions: Seq<DeletionEntry>,
    hidden: Set<Seq<char>>,
) -> Option<MessageDeletion> {
    if hidden.contains(entry.message.message_id@) {
        Some(MessageDeletion::Local)
    } else if deleted_by_author(deletions, entry.message.message_id@, entry.author@) {
        Some(MessageDeletion::Everyone)
    } else {
        entry.message.deletion
    }
}

/// The message of an entry, marked as it shows.
pub open spec fn marked(
    entry: MessageEntry,
    deletions: Seq<DeletionEntry>,
    hidden: Set<Seq<char>>,
) -> MessageView {
    MessageView { deletion: deletion_shown(entry, deletions, hidden), ..entry.message@ }
}

/// Whether `m` is the marked message of a first valid entry.
pub open spec fn stems_from(
    m: MessageView,
    entries: Seq<MessageEntry>,
    deletions: Seq<DeletionEntry>,
    hidden: Set<Seq<char>>,
) -> bool {
    exists|k: int| #[trigger] leads(entries, k) && m == marked(entries[k], deletions, hidden)
}

/// Whether `list` is the timeline of these entries: in order, and for each message the first
/// valid entry, marked, and nothing else.
pub open spec fn is_timeline(
    list: Seq<MessageView>,
    entries: Seq<MessageEntry>,
    deletions: Seq<DeletionEntry>,
    hidden: Set<Seq<char>>,
) -> bool {
    &&& ordered(list)
    &&& forall|i: int, j: int|
        0 <= i < j < list.len() ==> (#[trigger] list[i]).message_id != (
        #[trigger] list[j]).message_id
    &&& forall|i: int|
        0 <= i < list.len() ==> stems_from(#[trigger] list[i], entries, deletions, hidden)
    &&& forall|k: int| #[trigger]
        leads(entries, k) ==> list.contains(marked(entries[k], deletions, hidden))
}

fn author_deleted(deletions: &Vec<DeletionEntry>, message_id: &str, author: &str) -> (r: bool)
    ensures
        r == deleted_by_author(deletions@, message_id@, author@),
{
    let mut d: usize = 0;
    while d < deletions.len()
        invariant
            0 <= d <= deletions@.len(),
            forall|j: int|
                0 <= j < d ==> !(record_fault(
                    deletions@[j].deletion.version as int,
                    deletions@[j].deletion.message_id@,
                ) is None && #[trigger] deletions@[j].deletion.message_id@ == message_id@
                    && deletions@[j].author@ == author@),
        decreases deletions@.len() - d,
    {
        let valid: bool = match deletions[d].deletion.validate() {
            Ok(_) => true,
            Err(_) => false,
        };
        if valid && same_text(deletions[d].deletion.message_id.as_str(), message_id) && same_text(
            deletions[d].author.as_str(),
            author,
        ) {
            assert(deletions@[d as int].deletion.message_id@ == message_id@);
            return true;
        }
        d += 1;
    }
    false
}

/// The first valid entry of each message.
fn lead_entries(entries: &Vec<MessageEntry>) -> (t: Table<String, usize>)
    ensures
        t.wf(),
        forall|k: int| #[trigger]
            leads(entries@, k) ==> t@.contains_key(entries@[k].message.message_id@),
        forall|id: Seq<char>| #[trigger]
            t@.contains_key(id) ==> leads(entries@, t@[id] as int)
                && entries@[t@[id] as int].message.message_id@ == id,
{
    let mut t: Table<String, usize> = Table::new();
    let mut i: usize = 0;
    while i < entries.len()
        invariant
            0 <= i <= entries@.len(),
            t.wf(),
            forall|k: int|
                0 <= k < i && #[trigger] entries@[k].message@.fault() is None ==> t@.contains_key(
                    entries@[k].message.message_id@,
                ),
            forall|id: Seq<char>| #[trigger]
                t@.contains_key(id) ==> t@[id] < i && leads(entries@, t@[id] as int)
                    && entries@[t@[id] as int].message.message_id@ == id,
        decreases entries@.len() - i,
    {
        let valid: bool = match entries[i].message.validate() {
            Ok(_) => true,
            Err(_) => false,
        };
        if valid && !t.has(&entries[i].message.message_id) {
            let ghost before = t@;
            t.insert(entries[i].message.message_id.clone(), i);
            proof {
                assert(leads(entries@, i as int)) by {
                    assert forall|j: int|
                        0 <= j < i && #[trigger] entries@[j].message@.fault() is None implies entries@[j].message.message_id@
                        != entries@[i as int].message.message_id@ by {
                        assert(before.contains_key(entries@[j].message.message_id@));
                    }
                }
            }
        }
        i += 1;
    }
    proof {
        assert forall|k: int| #[trigger] leads(entries@, k) implies t@.contains_key(
            entries@[k].message.message_id@,
        ) by {
            assert(entries@[k].message@.fault() is None);
        }
    }
    t
}

/// The timeline of a document: `entries` and `deletions` in the order in which the document
/// gives them, and `hidden` the messages deleted on this device.
pub fn load_messages(
    entries: &Vec<MessageEntry>,
    deletions: &Vec<DeletionEntry>,
    hidden: &Table<String, ()>,
) -> (list: Vec<ChatMessage>)
    requires
        hidden.wf(),
    ensures
        is_timeline(message_views(list@), entries@, deletions@, hidden@.dom()),
{
    let leaders = lead_entries(entries);
    let mut found: Vec<ChatMessage> = Vec::new();
    let mut i: usize = 0;
    while i < leaders.entries.len()
        invariant
            0 <= i <= leaders.entries@.len(),
            leaders.wf(),
            hidden.wf(),
            forall|id: Seq<char>| #[trigger]
                leaders@.contains_key(id) ==> leads(entries@, leaders@[id] as int)
                    && entries@[leaders@[id] as int].message.message_id@ == id,
            found@.len() == i,
            forall|j: int|
                0 <= j < i ==> #[trigger] found@[j]@ == marked(
                    entries@[leaders.entries@[j].1 as int],
                    deletions@,
                    hidden@.dom(),
                ),
        decreases leaders.entries@.len() - i,
    {
        proof {
            leaders.lemma_entry(i as int);
        }
        let k: usize = leaders.entries[i].1;
        let mut m = entries[k].message.clone();
        if hidden.has(&entries[k].message.message_id) {
            m.deletion = Some(MessageDeletion::Local);
        } else if author_deleted(
            deletions,
            entries[k].message.message_id.as_str(),
            entries[k].author.as_str(),
        ) {
            m.deletion = Some(MessageDeletion::Everyone);
        }
        found.push(m);
        i += 1;
    }
    let ghost raw = found@;
    let list = sort_messages(found);
    proof {
        lemma_timeline(list@, raw, leaders, entries@, deletions@, hidden@.dom());
    }
    list
}

proof fn lemma_timeline(
    list: Seq<ChatMessage>,
    raw: Seq<ChatMessage>,
    leaders: Table<String, usize>,
    entries: Seq<MessageEntry>,
    deletions: Seq<DeletionEntry>,
    hidden: Set<Seq<char>>,
)
    requires
        ordered(message_views(list)),
        list.to_multiset() =~= raw.to_multiset(),
        leaders.wf(),
        raw.len() == leaders.entries@.len(),
        forall|j: int|
            0 <= j < raw.len() ==> #[trigger] raw[j]@ == marked(
                entries[leaders.entries@[j].1 as int],
                deletions,
                hidden,
            ),
        forall|k: int| #[trigger]
            leads(entries, k) ==> leaders@.contains_key(entries[k].message.message_id@),
        forall|id: Seq<char>| #[trigger]
            leaders@.contains_key(id) ==> leads(entries, leaders@[id] as int)
                && entries[leaders@[id] as int].message.message_id@ == id,
    ensures
        is_timeline(message_views(list), entries, deletions, hidden),
{
    broadcast use vstd::seq_lib::group_to_multiset_ensures;

    let views = message_views(list);
    assert forall|j: int| 0 <= j < raw.len() implies leads(
        entries,
        leaders.entries@[j].1 as int,
    ) && (#[trigger] raw[j]@).message_id == leaders.names()[j] by {
        leaders.lemma_entry(j);
    }
    assert forall|i: int| 0 <= i < views.len() implies stems_from(
        #[trigger] views[i],
        entries,
        deletions,
        hidden,
    ) by {
        assert(list.contains(list[i]));
        assert(list.to_multiset().count(list[i]) > 0);
        assert(raw.contains(list[i]));
        let j = choose|j: int| 0 <= j < raw.len() && raw[j] == list[i];
        assert(raw[j]@ == views[i]);
        assert(leads(entries, leaders.entries@[j].1 as int));
    }
    assert forall|k: int| #[trigger] leads(entries, k) implies views.contains(
        marked(entries[k], deletions, hidden),
    ) by {
        let id = entries[k].message.message_id@;
        let j = leaders.lemma_held(id);
        leaders.lemma_entry(j);
        let lead = leaders@[id] as int;
        assert(leads(entries, lead));
        if lead < k {
            assert(entries[lead].message@.fault() is None);
        } else if k < lead {
            assert(entries[k].message@.fault() is None);
        }
        assert(lead == k);
        assert(raw.contains(raw[j]));
        assert(raw.to_multiset().count(raw[j]) > 0);
        assert(list.contains(raw[j]));
        let i = choose|i: int| 0 <= i < list.len() && list[i] == raw[j];
        assert(views[i] == marked(entries[k], deletions, hidden));
    }
    assert(raw.no_duplicates()) by {
        assert forall|a: int, b: int| 0 <= a < b < raw.len() implies raw[a] != raw[b] by {
            assert(raw[a]@.message_id == leaders.names()[a]);
            assert(raw[b]@.message_id == leaders.names()[b]);
            lemma_text_lt_total(leaders.names()[a], leaders.names()[b]);
        }
    }
    raw.lemma_multiset_has_no_duplicates();
    assert(list.to_multiset() == raw.to_multiset());
    list.lemma_multiset_has_no_duplicates_conv();
    assert forall|i: int, j: int| 0 <= i < j < views.len() implies (#[trigger] views[i]).message_id
        != (#[trigger] views[j]).message_id by {
        assert(list.to_multiset().count(list[i]) > 0);
        assert(list.to_multiset().count(list[j]) > 0);
        assert(raw.contains(list[i]));
        assert(raw.contains(list[j]));
        let a = choose|a: int| 0 <= a < raw.len() && raw[a] == list[i];
        let b = choose|b: int| 0 <= b < raw.len() && raw[b] == list[j];
        assert(list[i] != list[j]);
        assert(a != b);
        assert(raw[a]@.message_id == leaders.names()[a]);
        assert(raw[b]@.message_id == leaders.names()[b]);
        if a < b {
            lemma_text_lt_total(leaders.names()[a], leaders.names()[b]);
        } else {
            lemma_text_lt_total(leaders.names()[b], leaders.names()[a]);
        }
    }
}

/// A document has one timeline.
pub proof fn law_timeline_is_unique(
    a: Seq<MessageView>,
    b: Seq<MessageView>,
    entries: Seq<MessageEntry>,
    deletions: Seq<DeletionEntry>,
    hidden: Set<Seq<char>>,
)
    requires
        is_timeline(a, entries, deletions, hidden),
        is_timeline(b, entries, deletions, hidden),
    ensures
        a == b,
{
    assert forall|m: MessageView| a.contains(m) <==> b.contains(m) by {
        if a.contains(m) {
            let i = choose|i: int| 0 <= i < a.len() && a[i] == m;
            assert(stems_from(a[i], entries, deletions, hidden));
            let k = choose|k: int| #[trigger]
                leads(entries, k) && m == marked(entries[k], deletions, hidden);
            assert(b.contains(marked(entries[k], deletions, hidden)));
        }
        if b.contains(m) {
            let i = choose|i: int| 0 <= i < b.len() && b[i] == m;
            assert(stems_from(b[i], entries, deletions, hidden));
            let k = choose|k: int| #[trigger]
                leads(entries, k) && m == marked(entries[k], deletions, hidden);
            assert(a.contains(marked(entries[k], deletions, hidden)));
        }
    }
    lemma_ordered_unique(a, b);
}

proof fn lemma_ordered_unique(a: Seq<MessageView>, b: Seq<MessageView>)
    requires
        ordered(a),
        ordered(b),
        forall|i: int, j: int|
            0 <= i < j < a.len() ==> (#[trigger] a[i]).message_id != (#[trigger] a[j]).message_id,
        forall|i: int, j: int|
            0 <= i < j < b.len() ==> (#[trigger] b[i]).message_id != (#[trigger] b[j]).message_id,
        forall|m: MessageView| a.contains(m) <==> b.contains(m),
    ensures
        a == b,
    decreases a.len(),
{
    if a.len() == 0 {
        if b.len() > 0 {
            assert(b.contains(b[0]));
            assert(a.contains(b[0]));
        }
        assert(a =~= b);
    } else {
        assert(a.contains(a[0]));
        assert(b.contains(a[0]));
        let j = choose|j: int| 0 <= j < b.len() && b[j] == a[0];
        assert(b.contains(b[0]));
        assert(a.contains(b[0]));
        let k = choose|k: int| 0 <= k < a.len() && a[k] == b[0];
        law_message_order_is_total(a[0], b[0]);
        if j > 0 {
            assert(in_order(b[0], b[j]));
            assert(b[0].message_id != b[j].message_id);
            if k > 0 {
                assert(in_order(a[0], a[k]));
            }
        }
        assert(a[0] == b[0]);
        let x = a.drop_first();
        let y = b.drop_first();
        assert forall|i: int, j: int| 0 <= i < j < x.len() implies in_order(
            #[trigger] x[i],
            #[trigger] x[j],
        ) && x[i].message_id != x[j].message_id by {
            assert(in_order(a[i + 1], a[j + 1]));
            assert(a[i + 1].message_id != a[j + 1].message_id);
        }
        assert forall|i: int, j: int| 0 <= i < j < y.len() implies in_order(
            #[trigger] y[i],
            #[trigger] y[j],
        ) && y[i].message_id != y[j].message_id by {
            assert(in_order(b[i + 1], b[j + 1]));
            assert(b[i + 1].message_id != b[j + 1].message_id);
        }
        assert forall|m: MessageView| x.contains(m) <==> y.contains(m) by {
            if x.contains(m) {
                let i = choose|i: int| 0 <= i < x.len() && x[i] == m;
                assert(a[i + 1] == m && a[0].message_id != a[i + 1].message_id);
                assert(a.contains(m));
                let i2 = choose|i: int| 0 <= i < b.len() && b[i] == m;
                assert(i2 != 0);
                assert(y[i2 - 1] == m);
            }
            if y.contains(m) {
                let i = choose|i: int| 0 <= i < y.len() && y[i] == m;
                assert(b[i + 1] == m && b[0].message_id != b[i + 1].message_id);
                assert(b.contains(m));
                let i2 = choose|i: int| 0 <= i < a.len() && a[i] == m;
                assert(i2 != 0);
                assert(x[i2 - 1] == m);
            }
        }
        lemma_ordered_unique(x, y);
        assert(a =~= seq![a[0]] + x);
        assert(b =~= seq![b[0]] + y);
    }
}

/// Only the identity that wrote a message can delete it for everyone: deletions written by
/// others change nothing.
pub proof fn law_strangers_cannot_delete(
    entry: MessageEntry,
    deletions: Seq<DeletionEntry>,
    hidden: Set<Seq<char>>,
)
    requires
        forall|d: int|
            0 <= d < deletions.len() ==> (#[trigger] deletions[d]).author@ != entry.author@,
        !hidden.contains(entry.message.message_id@),
    ensures
        marked(entry, deletions, hidden) == entry.message@,
{
    if deleted_by_author(deletions, entry.message.message_id@, entry.author@) {
        let d = choose|d: int|
            0 <= d < deletions.len() && record_fault(
                deletions[d].deletion.version as int,
                deletions[d].deletion.message_id@,
            ) is None && #[trigger] deletions[d].deletion.message_id@ == entry.message.message_id@
                && deletions[d].author@ == entry.author@;
        assert(deletions[d].author@ != entry.author@);
    }
}

/// A message that no valid deletion names, and that is not hidden here, shows as it was written,
/// whatever else its author has deleted.
pub proof fn law_unnamed_messages_stay(
    entry: MessageEntry,
    deletions: Seq<DeletionEntry>,
    hidden: Set<Seq<char>>,
)
    requires
        forall|d: int|
            0 <= d < deletions.len() && (#[trigger] deletions[d]).deletion.version == 1
                ==> deletions[d].deletion.message_id@ != entry.message.message_id@,
        !hidden.contains(entry.message.message_id@),
    ensures
        marked(entry, deletions, hidden) == entry.message@,
{
    if deleted_by_author(deletions, entry.message.message_id@, entry.author@) {
        let d = choose|d: int|
            0 <= d < deletions.len() && record_fault(
                deletions[d].deletion.version as int,
                deletions[d].deletion.message_id@,
            ) is None && #[trigger] deletions[d].deletion.message_id@ == entry.message.message_id@
                && deletions[d].author@ == entry.author@;
        assert(deletions[d].deletion.message_id@ == entry.message.message_id@);
    }
}

/// A valid deletion that names a message, by the identity that wrote the message, deletes it for
/// everyone; a message hidden here is hidden whatever was deleted. What was written, by whom and
/// when is kept in either case.
pub proof fn law_author_deletes_for_everyone(
    entry: MessageEntry,
    deletions: Seq<DeletionEntry>,
    hidden: Set<Seq<char>>,
    d: int,
)
    requires
        0 <= d < deletions.len(),
        deletions[d].deletion.version == 1,
        message_id_form(entry.message.message_id@),
        deletions[d].deletion.message_id@ == entry.message.message_id@,
        deletions[d].author@ == entry.author@,
    ensures
        ({
            let shown = marked(entry, deletions, hidden);
            &&& shown.deletion == Some(
                if hidden.contains(entry.message.message_id@) {
                    MessageDeletion::Local
                } else {
                    MessageDeletion::Everyone
                },
            )
            &&& shown == (MessageView { deletion: shown.deletion, ..entry.message@ })
        }),
{
}

/// A message that was hidden here is hidden, and no other is touched by that.
pub proof fn law_hiding_concerns_one_message(
    entry: MessageEntry,
    deletions: Seq<DeletionEntry>,
    hidden: Set<Seq<char>>,
    id: Seq<char>,
)
    ensures
        entry.message.message_id@ == id ==> marked(entry, deletions, hidden.insert(id)).deletion
            == Some(MessageDeletion::Local),
        entry.message.message_id@ != id ==> marked(entry, deletions, hidden.insert(id)) == marked(
            entry,
            deletions,
            hidden,
        ),
{
}

/// A timeline has one message for each id that a valid entry names, the first of them in the
/// document, and no other message.
pub proof fn law_timeline_lists_first_entries(
    list: Seq<MessageView>,
    entries: Seq<MessageEntry>,
    deletions: Seq<DeletionEntry>,
    hidden: Set<Seq<char>>,
    k: int,
)
    requires
        is_timeline(list, entries, deletions, hidden),
        0 <= k < entries.len(),
        entries[k].message@.fault() is None,
    ensures
        exists|i: int|
            0 <= i < list.len() && (#[trigger] list[i]).message_id == entries[k].message.message_id@,
        (forall|j: int|
            0 <= j < k ==> (#[trigger] entries[j]).message.message_id@
                != entries[k].message.message_id@) ==> exists|i: int|
            0 <= i < list.len() && #[trigger] list[i] == (MessageView {
                deletion: list[i].deletion,
                ..entries[k].message@
            }),
        forall|i: int|
            0 <= i < list.len() ==> exists|j: int|
                0 <= j < entries.len() && entries[j].message@.fault() is None && (
                #[trigger] entries[j]).message.message_id@ == (#[trigger] list[i]).message_id,
{
    let id = entries[k].message.message_id@;
    let first = lemma_first_entry(entries, k);
    assert(leads(entries, first));
    assert(list.contains(marked(entries[first], deletions, hidden)));
    let i = choose|i: int| 0 <= i < list.len() && list[i] == marked(entries[first], deletions, hidden);
    assert(list[i].message_id == id);
    if forall|j: int| 0 <= j < k ==> (#[trigger] entries[j]).message.message_id@ != id {
        assert(first == k) by {
            if first < k {
                assert(entries[first].message.message_id@ != id);
            }
        }
        assert(list[i] == (MessageView { deletion: list[i].deletion, ..entries[k].message@ }));
    }
    assert forall|i: int| 0 <= i < list.len() implies exists|j: int|
        0 <= j < entries.len() && entries[j].message@.fault() is None && (
        #[trigger] entries[j]).message.message_id@ == (#[trigger] list[i]).message_id by {
        assert(stems_from(list[i], entries, deletions, hidden));
        let j = choose|j: int| #[trigger]
            leads(entries, j) && list[i] == marked(entries[j], deletions, hidden);
        assert(entries[j].message.message_id@ == list[i].message_id);
    }
}

/// The first valid entry for the message of entry `k`.
proof fn lemma_first_entry(entries: Seq<MessageEntry>, k: int) -> (first: int)
    requires
        0 <= k < entries.len(),
        entries[k].message@.fault() is None,
    ensures
        leads(entries, first),
        first <= k,
        entries[first].message.message_id@ == entries[k].message.message_id@,
    decreases k,
{
    if leads(entries, k) {
        k
    } else {
        let j = choose|j: int|
            0 <= j < k && #[trigger] entries[j].message@.fault() is None
                && entries[j].message.message_id@ == entries[k].message.message_id@;
        lemma_first_entry(entries, j)
    }
}

/// Earlier messages stand before later ones; of messages sent at one moment, those of the lesser
/// author; of those, the one with the lesser nonce, and at last the one with the lesser id.
pub proof fn law_timeline_follows_time(
    list: Seq<MessageView>,
    entries: Seq<MessageEntry>,
    deletions: Seq<DeletionEntry>,
    hidden: Set<Seq<char>>,
    i: int,
    j: int,
)
    requires
        is_timeline(list, entries, deletions, hidden),
        0 <= i < list.len(),
        0 <= j < list.len(),
    ensures
        list[i].sent_at < list[j].sent_at ==> i < j,
        list[i].sent_at == list[j].sent_at && text_lt(list[i].author_id, list[j].author_id) ==> i
            < j,
        list[i].sent_at == list[j].sent_at && list[i].author_id == list[j].author_id
            && list[i].nonce < list[j].nonce ==> i < j,
        list[i].sent_at == list[j].sent_at && list[i].author_id == list[j].author_id
            && list[i].nonce == list[j].nonce && text_lt(list[i].message_id, list[j].message_id)
            ==> i < j,
{
    lemma_text_lt_total(list[i].author_id, list[j].author_id);
    lemma_text_lt_total(list[i].message_id, list[j].message_id);
    if j < i {
        assert(in_order(list[j], list[i]));
    }
}

} // verus!
