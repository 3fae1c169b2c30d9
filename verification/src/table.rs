//! Tables with ordered keys: at most one entry for each key, kept in the order of the keys.
use vstd::prelude::*;
use crate::node::NodeId;
use crate::text::{
    bytes_lt, lemma_bytes_lt_irreflexive, lemma_bytes_lt_total, lemma_bytes_lt_transitive,
    lemma_text_lt_total, lemma_text_lt_transitive, relate_text, text_lt, Relation,
};

verus! {

/// A key of a table. Two keys are the same when their names are.
pub trait TableKey: Sized {
    type Name;

    /// What the key stands for.
    spec fn name(&self) -> Self::Name;

    /// Whether the first name comes before the second.
    spec fn before(a: Self::Name, b: Self::Name) -> bool;

    /// The order is strict and total.
    proof fn lemma_order(a: Self::Name, b: Self::Name, c: Self::Name)
        ensures
            !Self::before(a, a),
            Self::before(a, b) || a == b || Self::before(b, a),
            Self::before(a, b) && Self::before(b, c) ==> Self::before(a, c),
    ;

    /// How two keys stand to each other.
    fn relate(&self, other: &Self) -> (r: Relation)
        ensures
            r == if Self::before(self.name(), other.name()) {
                Relation::Before
            } else if self.name() == other.name() {
                Relation::Same
            } else {
                Relation::After
            },
    ;
}

impl TableKey for String {
    type Name = Seq<char>;

    open spec fn name(&self) -> Seq<char> {
        self@
    }

    open spec fn before(a: Seq<char>, b: Seq<char>) -> bool {
        text_lt(a, b)
    }

    proof fn lemma_order(a: Seq<char>, b: Seq<char>, c: Seq<char>) {
        lemma_text_lt_total(a, b);
        if text_lt(a, b) && text_lt(b, c) {
            lemma_text_lt_transitive(a, b, c);
        }
    }

    fn relate(&self, other: &Self) -> (r: Relation) {
        relate_text(self.as_str(), other.as_str())
    }
}

impl TableKey for NodeId {
    type Name = Seq<u8>;

    open spec fn name(&self) -> Seq<u8> {
        self@
    }

    open spec fn before(a: Seq<u8>, b: Seq<u8>) -> bool {
        bytes_lt(a, b)
    }

    proof fn lemma_order(a: Seq<u8>, b: Seq<u8>, c: Seq<u8>) {
        lemma_bytes_lt_irreflexive(a);
        lemma_bytes_lt_total(a, b);
        if bytes_lt(a, b) && bytes_lt(b, c) {
            lemma_bytes_lt_transitive(a, b, c);
        }
    }

    fn relate(&self, other: &Self) -> (r: Relation) {
        NodeId::relate(self, other)
    }
}

/// An ordered table.
pub struct Table<K: TableKey, V> {
    pub entries: Vec<(K, V)>,
}

impl<K: TableKey, V> Table<K, V> {
    /// The names of the keys, in the order of the entries.
    pub open spec fn names(self) -> Seq<K::Name> {
        Seq::new(self.entries@.len(), |i: int| self.entries@[i].0.name())
    }

    /// The keys ascend, so none occurs twice.
    pub open spec fn wf(self) -> bool {
        forall|i: int, j: int|
            0 <= i < j < self.entries@.len() ==> K::before(
                #[trigger] self.names()[i],
                #[trigger] self.names()[j],
            )
    }

    /// The place of the entry with this name.
    pub open spec fn place(self, name: K::Name) -> int {
        choose|i: int| 0 <= i < self.entries@.len() && #[trigger] self.names()[i] == name
    }
}

impl<K: TableKey, V> View for Table<K, V> {
    type V = Map<K::Name, V>;

    open spec fn view(&self) -> Map<K::Name, V> {
        Map::new(
            |name: K::Name| self.names().contains(name),
            |name: K::Name| self.entries@[self.place(name)].1,
        )
    }
}

impl<K: TableKey, V> Table<K, V> {
    /// Entry `i` is what the table holds for its key.
    pub proof fn lemma_entry(self, i: int)
        requires
            self.wf(),
            0 <= i < self.entries@.len(),
        ensures
            self@.contains_key(self.entries@[i].0.name()),
            self@[self.entries@[i].0.name()] == self.entries@[i].1,
            self.place(self.entries@[i].0.name()) == i,
    {
        let name = self.names()[i];
        assert(self.names().contains(name));
        let k = self.place(name);
        assert(self.names()[k] == name);
        K::lemma_order(name, name, name);
    }

    /// What the table holds stands in one of its entries.
    pub proof fn lemma_held(self, name: K::Name) -> (i: int)
        requires
            self.wf(),
            self@.contains_key(name),
        ensures
            0 <= i < self.entries@.len(),
            self.entries@[i].0.name() == name,
            self.entries@[i].1 == self@[name],
    {
        let i = choose|i: int| 0 <= i < self.names().len() && self.names()[i] == name;
        self.lemma_entry(i);
        i
    }

    /// A table holds as many keys as it has entries.
    pub proof fn lemma_size(self)
        requires
            self.wf(),
        ensures
            self@.dom().finite(),
            self@.dom().len() == self.entries@.len(),
    {
        let names = self.names();
        assert(names.no_duplicates()) by {
            assert forall|i: int, j: int| 0 <= i < j < names.len() implies names[i] != names[j] by {
                assert(K::before(names[i], names[j]));
                K::lemma_order(names[i], names[i], names[i]);
            }
        }
        names.unique_seq_to_set();
        assert(self@.dom() =~= names.to_set());
    }

    /// The empty table.
    pub fn new() -> (t: Self)
        ensures
            t.wf(),
            t@ == Map::<K::Name, V>::empty(),
            t.entries@.len() == 0,
    {
        let t = Table { entries: Vec::new() };
        assert(t@ =~= Map::<K::Name, V>::empty());
        t
    }

    /// How many entries there are.
    pub fn len(&self) -> (n: usize)
        ensures
            n == self.entries@.len(),
    {
        self.entries.len()
    }

    /// The place of the first entry whose key does not come before `key`, and whether that
    /// entry's key is `key`.
    fn search(&self, key: &K) -> (r: (usize, bool))
        requires
            self.wf(),
        ensures
            r.0 <= self.entries@.len(),
            forall|j: int| 0 <= j < r.0 ==> K::before(#[trigger] self.names()[j], key.name()),
            forall|j: int|
                r.0 <= j < self.entries@.len() && !(r.1 && j == r.0) ==> K::before(
                    key.name(),
                    #[trigger] self.names()[j],
                ),
            r.1 ==> r.0 < self.entries@.len() && self.names()[r.0 as int] == key.name(),
            r.1 == self@.contains_key(key.name()),
    {
        let mut i: usize = 0;
        while i < self.entries.len()
            invariant
                0 <= i <= self.entries@.len(),
                self.wf(),
                forall|j: int| 0 <= j < i ==> K::before(#[trigger] self.names()[j], key.name()),
            decreases self.entries@.len() - i,
        {
            let ghost here = self.names()[i as int];
            match self.entries[i].0.relate(key) {
                Relation::Before => {
                    i += 1;
                },
                Relation::Same => {
                    assert(self.names()[i as int] == key.name());
                    assert(self.names().contains(key.name()));
                    return (i, true);
                },
                Relation::After => {
                    proof {
                        K::lemma_order(here, key.name(), here);
                        assert(K::before(key.name(), here)) by {
                            K::lemma_order(key.name(), here, here);
                        }
                        assert forall|j: int| i <= j < self.entries@.len() implies K::before(
                            key.name(),
                            #[trigger] self.names()[j],
                        ) by {
                            if j > i {
                                K::lemma_order(key.name(), here, self.names()[j]);
                            }
                        }
                        self.lemma_absent(key.name(), i as int);
                    }
                    return (i, false);
                },
            }
        }
        proof {
            self.lemma_absent(key.name(), i as int);
        }
        (i, false)
    }

    proof fn lemma_absent(self, name: K::Name, at: int)
        requires
            0 <= at <= self.entries@.len(),
            forall|j: int| 0 <= j < at ==> K::before(#[trigger] self.names()[j], name),
            forall|j: int|
                at <= j < self.entries@.len() ==> K::before(name, #[trigger] self.names()[j]),
        ensures
            !self@.contains_key(name),
    {
        if self.names().contains(name) {
            let j = choose|j: int| 0 <= j < self.names().len() && self.names()[j] == name;
            K::lemma_order(name, name, name);
            if j < at {
                assert(K::before(self.names()[j], name));
            } else {
                assert(K::before(name, self.names()[j]));
            }
        }
    }

    /// The place of the entry for `key`.
    pub fn find(&self, key: &K) -> (r: Option<usize>)
        requires
            self.wf(),
        ensures
            match r {
                Some(i) => i < self.entries@.len() && self.entries@[i as int].0.name() == key.name()
                    && self@.contains_key(key.name()) && self.entries@[i as int].1
                    == self@[key.name()],
                None => !self@.contains_key(key.name()),
            },
    {
        let (i, found) = self.search(key);
        if found {
            proof {
                self.lemma_entry(i as int);
            }
            Some(i)
        } else {
            None
        }
    }

    /// Whether there is an entry for `key`.
    pub fn has(&self, key: &K) -> (r: bool)
        requires
            self.wf(),
        ensures
            r == self@.contains_key(key.name()),
    {
        self.search(key).1
    }

    /// What the table holds for `key`.
    pub fn get(&self, key: &K) -> (r: Option<&V>)
        requires
            self.wf(),
        ensures
            match r {
                Some(v) => self@.contains_key(key.name()) && *v == self@[key.name()],
                None => !self@.contains_key(key.name()),
            },
    {
        match self.find(key) {
            Some(i) => Some(&self.entries[i].1),
            None => None,
        }
    }

    /// Puts `value` in the place of what the table held for `key`.
    pub fn insert(&mut self, key: K, value: V)
        requires
            old(self).wf(),
        ensures
            final(self).wf(),
            final(self)@ == old(self)@.insert(key.name(), value),
    {
        let ghost before = *self;
        let ghost name = key.name();
        let (i, found) = self.search(&key);
        if found {
            self.entries.set(i, (key, value));
            proof {
                let after = *self;
                assert(after.names() =~= before.names());
                assert forall|other: K::Name| after@.contains_key(other) implies after@[other]
                    == before@.insert(name, value)[other] by {
                    let j = after.lemma_held(other);
                    before.lemma_entry(j);
                    K::lemma_order(name, name, name);
                    if j < i {
                        assert(K::before(before.names()[j], before.names()[i as int]));
                    } else if j > i {
                        assert(K::before(before.names()[i as int], before.names()[j]));
                    }
                }
                assert(after@ =~= before@.insert(name, value));
            }
        } else {
            self.entries.insert(i, (key, value));
            proof {
                let after = *self;
                assert(after.entries@ =~= before.entries@.insert(i as int, after.entries@[i as int]));
                assert(after.names() =~= before.names().insert(i as int, name));
                assert forall|a: int, b: int| 0 <= a < b < after.entries@.len() implies K::before(
                    #[trigger] after.names()[a],
                    #[trigger] after.names()[b],
                ) by {
                    let a0 = if a < i { a } else { a - 1 };
                    let b0 = if b < i { b } else { b - 1 };
                    if a != i {
                        assert(after.names()[a] == before.names()[a0]);
                    }
                    if b != i {
                        assert(after.names()[b] == before.names()[b0]);
                    }
                }
                assert forall|other: K::Name| after@.contains_key(other) <==> before@.insert(
                    name,
                    value,
                ).contains_key(other) by {
                    if after@.contains_key(other) && other != name {
                        let j = after.lemma_held(other);
                        let j0 = if j < i { j } else { j - 1 };
                        assert(before.names()[j0] == other);
                    }
                    if before@.contains_key(other) {
                        let j0 = before.lemma_held(other);
                        let j = if j0 < i { j0 } else { j0 + 1 };
                        assert(after.names()[j] == other);
                    }
                    assert(after.names()[i as int] == name);
                }
                assert forall|other: K::Name| after@.contains_key(other) implies after@[other]
                    == before@.insert(name, value)[other] by {
                    let j = after.lemma_held(other);
                    if j == i {
                    } else {
                        let j0 = if j < i { j } else { j - 1 };
                        assert(after.names()[j] == before.names()[j0]);
                        before.lemma_entry(j0);
                        if other == name {
                            assert(before.names().contains(name));
                        }
                    }
                }
                assert(after@ =~= before@.insert(name, value));
            }
        }
    }

    /// Takes out what the table holds for `key`.
    pub fn remove(&mut self, key: &K) -> (r: Option<V>)
        requires
            old(self).wf(),
        ensures
            final(self).wf(),
            final(self)@ == old(self)@.remove(key.name()),
            match r {
                Some(v) => old(self)@.contains_key(key.name()) && v == old(self)@[key.name()],
                None => !old(self)@.contains_key(key.name()) && *final(self) == *old(self),
            },
    {
        let ghost before = *self;
        let ghost name = key.name();
        let (i, found) = self.search(key);
        if !found {
            assert(before@.remove(name) =~= before@);
            return None;
        }
        let entry = self.entries.remove(i);
        proof {
            let after = *self;
            before.lemma_entry(i as int);
            assert(after.names() =~= before.names().remove(i as int));
            assert forall|a: int, b: int| 0 <= a < b < after.entries@.len() implies K::before(
                #[trigger] after.names()[a],
                #[trigger] after.names()[b],
            ) by {
                let a0 = if a < i { a } else { a + 1 };
                let b0 = if b < i { b } else { b + 1 };
                assert(after.names()[a] == before.names()[a0]);
                assert(after.names()[b] == before.names()[b0]);
            }
            assert forall|other: K::Name| after@.contains_key(other) <==> before@.remove(
                name,
            ).contains_key(other) by {
                if after@.contains_key(other) {
                    let j = after.lemma_held(other);
                    let j0 = if j < i { j } else { j + 1 };
                    assert(before.names()[j0] == other);
                    before.lemma_entry(j0);
                }
                if before@.contains_key(other) && other != name {
                    let j0 = before.lemma_held(other);
                    let j = if j0 < i { j0 } else { j0 - 1 };
                    assert(after.names()[j] == other);
                }
            }
            assert forall|other: K::Name| after@.contains_key(other) implies after@[other]
                == before@.remove(name)[other] by {
                let j = after.lemma_held(other);
                let j0 = if j < i { j } else { j + 1 };
                before.lemma_entry(j0);
            }
            assert(after@ =~= before@.remove(name));
        }
        Some(entry.1)
    }
}

} // verus!
