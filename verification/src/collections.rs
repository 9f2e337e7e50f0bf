//! Sets and maps keyed by text, in the order in which their keys were first inserted.

use vstd::prelude::*;

verus! {

/// A copy of `texts`.
pub fn clone_texts(texts: &Vec<String>) -> (r: Vec<String>)
    ensures
        r.deep_view() == texts.deep_view(),
{
    let mut r: Vec<String> = Vec::new();
    for i in 0..texts.len()
        invariant
            r.deep_view() == texts.deep_view().take(i as int),
    {
        let ghost before = r.deep_view();
        r.push(texts[i].clone());
        assert(r.deep_view() =~= before.push(texts[i as int]@));
        assert(r.deep_view() =~= texts.deep_view().take(i + 1));
    }
    assert(texts.deep_view().take(texts.len() as int) =~= texts.deep_view());
    r
}

/// Appends copies of `more` to `texts`.
pub fn append_texts(texts: &mut Vec<String>, more: &Vec<String>)
    ensures
        final(texts).deep_view() == old(texts).deep_view() + more.deep_view(),
{
    let ghost first = texts.deep_view();
    for i in 0..more.len()
        invariant
            texts.deep_view() == first + more.deep_view().take(i as int),
    {
        let ghost before = texts.deep_view();
        texts.push(more[i].clone());
        assert(texts.deep_view() =~= before.push(more[i as int]@));
        assert(texts.deep_view() =~= first + more.deep_view().take(i + 1));
    }
    assert(more.deep_view().take(more.len() as int) =~= more.deep_view());
}

/// A set of identifiers.
pub struct IdSet {
    ids: Vec<String>,
}

impl View for IdSet {
    type V = Set<Seq<char>>;

    closed spec fn view(&self) -> Set<Seq<char>> {
        self.ids.deep_view().to_set()
    }
}

impl IdSet {
    /// No identifier is held twice.
    #[verifier::type_invariant]
    spec fn inv(self) -> bool {
        self.ids.deep_view().no_duplicates()
    }

    /// The set without members.
    pub fn new() -> (r: Self)
        ensures
            r@ == Set::<Seq<char>>::empty(),
    {
        let r = IdSet { ids: Vec::new() };
        assert(r@ =~= Set::<Seq<char>>::empty());
        r
    }

    /// Whether `id` is a member.
    pub fn contains(&self, id: &str) -> (r: bool)
        ensures
            r == self@.contains(id@),
    {
        let wanted = id.to_owned();
        for i in 0..self.ids.len()
            invariant
                wanted@ == id@,
                forall|j: int| 0 <= j < i ==> (#[trigger] self.ids@[j])@ != id@,
        {
            if self.ids[i] == wanted {
                assert(self.ids.deep_view()[i as int] == id@);
                return true;
            }
        }
        false
    }

    /// Adds `id`; `true` where it was not a member before.
    pub fn insert(&mut self, id: String) -> (fresh: bool)
        ensures
            final(self)@ == old(self)@.insert(id@),
            fresh == !old(self)@.contains(id@),
    {
        if self.contains(&id) {
            assert(self@.insert(id@) =~= self@);
            return false;
        }
        proof {
            use_type_invariant(&*self);
        }
        let ghost before = self.ids.deep_view();
        let ghost added = id@;
        let mut ids: Vec<String> = Vec::new();
        std::mem::swap(&mut ids, &mut self.ids);
        ids.push(id);
        proof {
            assert(ids.deep_view() =~= before.push(added));
            before.lemma_push_to_set_commute(added);
        }
        self.ids = ids;
        true
    }

    /// The members, each once.
    pub fn ids(&self) -> (r: &Vec<String>)
        ensures
            r.deep_view().no_duplicates(),
            r.deep_view().to_set() == self@,
    {
        proof {
            use_type_invariant(self);
        }
        &self.ids
    }

    /// The members that `other` has too.
    pub fn intersection(&self, other: &IdSet) -> (r: IdSet)
        ensures
            r@ == self@.intersect(other@),
    {
        let mut r = IdSet::new();
        let ghost all = self.ids.deep_view();
        for i in 0..self.ids.len()
            invariant
                all == self.ids.deep_view(),
                r@ == all.take(i as int).to_set().intersect(other@),
        {
            proof {
                assert(all.take(i + 1) =~= all.take(i as int).push(self.ids@[i as int]@));
                all.take(i as int).lemma_push_to_set_commute(self.ids@[i as int]@);
            }
            if other.contains(&self.ids[i]) {
                r.insert(self.ids[i].clone());
            }
            assert(r@ =~= all.take(i + 1).to_set().intersect(other@));
        }
        assert(all.take(all.len() as int) =~= all);
        r
    }

    /// The number of members.
    pub fn len(&self) -> (r: usize)
        ensures
            r == self@.len(),
            self@.finite(),
    {
        proof {
            use_type_invariant(self);
            self.ids.deep_view().unique_seq_to_set();
        }
        self.ids.len()
    }
}

impl Clone for IdSet {
    fn clone(&self) -> (r: Self)
        ensures
            r@ == self@,
    {
        proof {
            use_type_invariant(self);
        }
        IdSet { ids: clone_texts(&self.ids) }
    }
}

/// A place of `entries` at which an entry stands under `key`, if there is one.
pub open spec fn find_key<V>(entries: Seq<(String, V)>, key: Seq<char>) -> Option<int> {
    if exists|i: int| 0 <= i < entries.len() && (#[trigger] entries[i]).0@ == key {
        Some(choose|i: int| 0 <= i < entries.len() && (#[trigger] entries[i]).0@ == key)
    } else {
        None
    }
}

/// A map from text to `V`.
pub struct IdMap<V> {
    entries: Vec<(String, V)>,
}

impl<V> View for IdMap<V> {
    type V = Map<Seq<char>, V>;

    closed spec fn view(&self) -> Map<Seq<char>, V> {
        Map::new(
            |key: Seq<char>| find_key(self.entries@, key) is Some,
            |key: Seq<char>| self.entries@[find_key(self.entries@, key)->0].1,
        )
    }
}

impl<V> IdMap<V> {
    /// No key is held twice.
    #[verifier::type_invariant]
    spec fn inv(self) -> bool {
        forall|i: int, j: int|
            0 <= i < j < self.entries@.len() ==> (#[trigger] self.entries@[i]).0@ != (
            #[trigger] self.entries@[j]).0@
    }

    /// The map without keys.
    pub fn new() -> (r: Self)
        ensures
            r@ == Map::<Seq<char>, V>::empty(),
    {
        let r = IdMap { entries: Vec::new() };
        assert(r@ =~= Map::<Seq<char>, V>::empty());
        r
    }

    /// The place of `key`.
    fn position(&self, key: &str) -> (r: Option<usize>)
        ensures
            r is Some <==> self@.contains_key(key@),
            r matches Some(i) ==> i < self.entries@.len() && self.entries@[i as int].0@ == key@
                && self@[key@] == self.entries@[i as int].1,
    {
        proof {
            use_type_invariant(self);
        }
        let wanted = key.to_owned();
        for i in 0..self.entries.len()
            invariant
                wanted@ == key@,
                self.inv(),
                forall|j: int| 0 <= j < i ==> (#[trigger] self.entries@[j]).0@ != key@,
        {
            if self.entries[i].0 == wanted {
                return Some(i);
            }
        }
        None
    }

    /// The value under `key`.
    pub fn get(&self, key: &str) -> (r: Option<&V>)
        ensures
            r is Some <==> self@.contains_key(key@),
            r matches Some(value) ==> *value == self@[key@],
    {
        match self.position(key) {
            Some(i) => Some(&self.entries[i].1),
            None => None,
        }
    }

    /// Puts `value` under `key`, in place of what stood there.
    pub fn insert(&mut self, key: String, value: V)
        ensures
            final(self)@ == old(self)@.insert(key@, value),
    {
        let place = self.position(&key);
        proof {
            use_type_invariant(&*self);
        }
        let ghost before = self.entries@;
        let ghost key_text = key@;
        let mut entries: Vec<(String, V)> = Vec::new();
        std::mem::swap(&mut entries, &mut self.entries);
        match place {
            Some(i) => {
                entries.set(i, (key, value));
            },
            None => {
                entries.push((key, value));
            },
        }
        self.entries = entries;
        proof {
            let after = self.entries@;
            let at: int = match place {
                Some(i) => i as int,
                None => before.len() as int,
            };
            assert(after[at].0@ == key_text);
            assert forall|k: Seq<char>| k != key_text implies find_key(after, k) == find_key(
                before,
                k,
            ) by {
                assert forall|i: int| #![trigger before[i]] #![trigger after[i]]
                    (0 <= i < after.len() && after[i].0@ == k) <==> (0 <= i < before.len()
                        && before[i].0@ == k) by {
                    if 0 <= i < before.len() && i != at {
                        assert(after[i] == before[i]);
                    }
                }
            }
            assert(self@ =~= old(self)@.insert(key_text, value));
        }
    }
}

impl<V> IdMap<V> {
    /// Puts all that `other` holds in, in place of what stood under the same keys.
    pub fn extend(&mut self, other: IdMap<V>)
        ensures
            final(self)@ == old(self)@.union_prefer_right(other@),
    {
        proof {
            use_type_invariant(&other);
        }
        let ghost all = other.entries@;
        let ghost before = self@;
        let mut entries = other.entries;
        while entries.len() > 0
            invariant
                other.inv(),
                all == other.entries@,
                entries.len() <= all.len(),
                entries@ == all.take(entries.len() as int),
                forall|key: Seq<char>| #[trigger]
                    self@.contains_key(key) <==> before.contains_key(key) || exists|i: int|
                        entries.len() <= i < all.len() && (#[trigger] all[i]).0@ == key,
                forall|i: int|
                    entries.len() <= i < all.len() ==> self@[(#[trigger] all[i]).0@] == all[i].1,
                forall|key: Seq<char>|
                    (forall|i: int| entries.len() <= i < all.len() ==> (#[trigger] all[i]).0@ != key)
                        ==> #[trigger] self@[key] == before[key],
            decreases entries.len(),
        {
            let ghost place = entries.len() - 1;
            let ghost held = self@;
            let (key, value) = entries.pop().unwrap();
            assert((key, value) == all[place]);
            self.insert(key, value);
            proof {
                assert(entries@ =~= all.take(place));
                assert forall|k: Seq<char>| #[trigger]
                    self@.contains_key(k) <==> before.contains_key(k) || exists|i: int|
                        place <= i < all.len() && (#[trigger] all[i]).0@ == k by {
                    if k == key@ {
                        assert(all[place].0@ == k);
                    }
                }
            }
        }
        proof {
            assert forall|key: Seq<char>| #[trigger] other@.contains_key(key) implies self@[key]
                == other@[key] by {
                let i = find_key(all, key)->0;
                assert(all[i].0@ == key);
            }
            assert(self@ =~= before.union_prefer_right(other@));
        }
    }
}

/// A map has finitely many keys.
pub proof fn id_map_is_finite<V>(map: IdMap<V>)
    ensures
        map@.dom().finite(),
{
    let keys = Seq::new(map.entries@.len(), |i: int| map.entries@[i].0@);
    assert forall|key: Seq<char>| #[trigger] map@.dom().contains(key) implies keys.to_set().contains(
        key,
    ) by {
        let i = find_key(map.entries@, key)->0;
        assert(keys[i] == key);
    }
    vstd::seq_lib::seq_to_set_is_finite(keys);
    vstd::set_lib::lemma_set_subset_finite(keys.to_set(), map@.dom());
}

/// The type of a state event and its state key.
pub type StateKeyView = (Seq<char>, Seq<char>);

/// An entry of a [`StateMap`].
pub struct StateEntry {
    pub event_type: String,
    pub state_key: String,
    pub event_id: String,
}

impl StateEntry {
    /// The key of the entry.
    pub open spec fn key(self) -> StateKeyView {
        (self.event_type@, self.state_key@)
    }
}

/// No two of `entries` have the same key.
pub open spec fn keys_differ(entries: Seq<StateEntry>) -> bool {
    forall|i: int, j: int|
        0 <= i < j < entries.len() ==> (#[trigger] entries[i]).key() != (#[trigger] entries[j]).key()
}

/// `entries` has an entry under `key`.
pub open spec fn has_state_key(entries: Seq<StateEntry>, key: StateKeyView) -> bool {
    exists|i: int| 0 <= i < entries.len() && (#[trigger] entries[i]).key() == key
}

/// The event id under `key` in `entries`.
pub open spec fn state_under(entries: Seq<StateEntry>, key: StateKeyView) -> Seq<char> {
    entries[choose|i: int| 0 <= i < entries.len() && (#[trigger] entries[i]).key() == key].event_id@
}

/// What `entries` say: under each of their keys the event id that stands there.
pub open spec fn state_of(entries: Seq<StateEntry>) -> Map<StateKeyView, Seq<char>> {
    Map::new(
        |key: StateKeyView| has_state_key(entries, key),
        |key: StateKeyView| state_under(entries, key),
    )
}

/// The state of a room: for each type of state event and state key the event that set it.
pub struct StateMap {
    entries: Vec<StateEntry>,
}

impl View for StateMap {
    type V = Map<StateKeyView, Seq<char>>;

    closed spec fn view(&self) -> Map<StateKeyView, Seq<char>> {
        state_of(self.entries@)
    }
}

impl StateMap {
    /// No key is held twice.
    #[verifier::type_invariant]
    spec fn inv(self) -> bool {
        keys_differ(self.entries@)
    }

    /// The state in which nothing is set.
    pub fn new() -> (r: Self)
        ensures
            r@ == Map::<StateKeyView, Seq<char>>::empty(),
    {
        let r = StateMap { entries: Vec::new() };
        assert(r@ =~= Map::<StateKeyView, Seq<char>>::empty());
        r
    }

    /// The place of a key.
    fn position(&self, event_type: &String, state_key: &String) -> (r: Option<usize>)
        ensures
            r is Some <==> self@.contains_key((event_type@, state_key@)),
            r matches Some(i) ==> {
                &&& i < self.entries@.len()
                &&& self.entries@[i as int].key() == (event_type@, state_key@)
                &&& self@[(event_type@, state_key@)] == self.entries@[i as int].event_id@
            },
    {
        proof {
            use_type_invariant(self);
        }
        for i in 0..self.entries.len()
            invariant
                self.inv(),
                forall|j: int|
                    0 <= j < i ==> (#[trigger] self.entries@[j]).key() != (
                        event_type@,
                        state_key@,
                    ),
        {
            if self.entries[i].event_type == *event_type && self.entries[i].state_key == *state_key {
                assert(self.entries@[i as int].key() == (event_type@, state_key@));
                return Some(i);
            }
        }
        None
    }

    /// The event that set a key.
    pub fn get(&self, event_type: &str, state_key: &str) -> (r: Option<&String>)
        ensures
            r is Some <==> self@.contains_key((event_type@, state_key@)),
            r matches Some(id) ==> id@ == self@[(event_type@, state_key@)],
    {
        match self.position(&event_type.to_owned(), &state_key.to_owned()) {
            Some(i) => Some(&self.entries[i].event_id),
            None => None,
        }
    }

    /// Sets a key to `event_id`, in place of what set it before.
    pub fn insert(&mut self, event_type: String, state_key: String, event_id: String)
        ensures
            final(self)@ == old(self)@.insert((event_type@, state_key@), event_id@),
    {
        let place = self.position(&event_type, &state_key);
        proof {
            use_type_invariant(&*self);
        }
        let ghost before = self.entries@;
        let ghost key: StateKeyView = (event_type@, state_key@);
        let ghost id = event_id@;
        let mut entries: Vec<StateEntry> = Vec::new();
        std::mem::swap(&mut entries, &mut self.entries);
        match place {
            Some(i) => {
                entries.set(i, StateEntry { event_type, state_key, event_id });
            },
            None => {
                entries.push(StateEntry { event_type, state_key, event_id });
            },
        }
        self.entries = entries;
        proof {
            let after = self.entries@;
            let at: int = match place {
                Some(i) => i as int,
                None => before.len() as int,
            };
            assert(after[at].key() == key);
            assert forall|k: StateKeyView| k != key implies has_state_key(after, k)
                == has_state_key(before, k) && (has_state_key(before, k) ==> state_under(after, k)
                == state_under(before, k)) by {
                assert forall|i: int| #![trigger before[i]] #![trigger after[i]]
                    (0 <= i < after.len() && after[i].key() == k) <==> (0 <= i < before.len()
                        && before[i].key() == k) by {
                    if 0 <= i < before.len() && i != at {
                        assert(after[i] == before[i]);
                    }
                }
            }
            assert(self@ =~= old(self)@.insert(key, id));
        }
    }

    /// The entries, each key once.
    pub fn entries(&self) -> (r: &Vec<StateEntry>)
        ensures
            keys_differ(r@),
            state_of(r@) == self@,
    {
        proof {
            use_type_invariant(self);
        }
        &self.entries
    }

    /// The events that set the keys, one for each key.
    pub fn values(&self) -> (r: Vec<String>)
        ensures
            r.deep_view().to_set() == self@.values(),
            self@.dom().finite(),
            r.len() == self@.dom().len(),
    {
        proof {
            use_type_invariant(self);
        }
        let mut r: Vec<String> = Vec::new();
        for i in 0..self.entries.len()
            invariant
                r.len() == i,
                forall|j: int| 0 <= j < i ==> (#[trigger] r@[j])@ == self.entries@[j].event_id@,
        {
            r.push(self.entries[i].event_id.clone());
        }
        proof {
            let ids = r.deep_view();
            let keys = Seq::new(self.entries@.len(), |i: int| self.entries@[i].key());
            assert forall|id: Seq<char>|
                ids.to_set().contains(id) implies #[trigger] self@.values().contains(id) by {
                let i = choose|i: int| 0 <= i < ids.len() && ids[i] == id;
                let key = self.entries@[i].key();
                assert(self@.contains_key(key) && self@[key] == id);
            }
            assert forall|id: Seq<char>| #[trigger]
                self@.values().contains(id) implies ids.to_set().contains(id) by {
                let key = choose|key: StateKeyView| #[trigger]
                    self@.contains_key(key) && self@[key] == id;
                let i = choose|i: int|
                    0 <= i < self.entries@.len() && (#[trigger] self.entries@[i]).key() == key;
                assert(ids[i] == id);
            }
            assert(ids.to_set() =~= self@.values());
            assert(keys.no_duplicates());
            keys.unique_seq_to_set();
            assert(keys.to_set() =~= self@.dom()) by {
                assert forall|key: StateKeyView|
                    self@.dom().contains(key) implies #[trigger] keys.to_set().contains(key) by {
                    let i = choose|i: int|
                        0 <= i < self.entries@.len() && (#[trigger] self.entries@[i]).key() == key;
                    assert(keys[i] == key);
                }
            }
        }
        r
    }
}

} // verus!
