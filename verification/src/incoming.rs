//! The state of a room before an incoming event.
//!
//! What the database and the other services know is asked for by requests and comes back in
//! replies; the machines here decide what is asked next and what comes out.

use std::collections::HashMap;

use vstd::prelude::*;

use crate::error::Error;
use crate::error::ErrorView;
use crate::event::clone_optional;

pub mod degree_one;
pub mod fork;
pub mod resolved;

verus! {

broadcast use vstd::std_specs::hash::group_hash_axioms;

/// A state by short state keys, as the database keeps it.
pub type FullState = HashMap<u64, String>;

/// What a [`FullState`] says.
pub type FullStateView = Map<u64, Seq<char>>;

/// What `state` says.
pub open spec fn full_state(state: FullState) -> FullStateView {
    state@.map_values(|id: String| id@)
}

/// The state that `pairs` make up; of two pairs with the same short state key the later one.
pub open spec fn collected(pairs: Seq<(u64, Seq<char>)>) -> FullStateView
    decreases pairs.len(),
{
    if pairs.len() == 0 {
        Map::empty()
    } else {
        collected(pairs.drop_last()).insert(pairs.last().0, pairs.last().1)
    }
}

/// The state that `pairs` make up.
pub(crate) fn collect_state(pairs: Vec<(u64, String)>) -> (r: FullState)
    ensures
        full_state(r) == collected(pairs.deep_view()),
{
    let mut r: FullState = HashMap::new();
    let ghost views = pairs.deep_view();
    assert(full_state(r) =~= collected(views.take(0)));
    for i in 0..pairs.len()
        invariant
            views == pairs.deep_view(),
            full_state(r) == collected(views.take(i as int)),
    {
        let ghost before = r@;
        r.insert(pairs[i].0, pairs[i].1.clone());
        proof {
            assert(views.take(i + 1).drop_last() =~= views.take(i as int));
            assert(views.take(i + 1).last() == (pairs@[i as int].0, pairs@[i as int].1@));
            assert(full_state(r) =~= collected(views.take(i + 1)));
        }
    }
    assert(views.take(views.len() as int) =~= views);
    r
}

/// An event that comes right before the incoming one.
pub struct PrevEvent {
    pub event_id: String,
    pub kind: String,
    /// The state key, where the event is a state event.
    pub state_key: Option<String>,
}

/// What a [`PrevEvent`] says.
pub struct PrevEventView {
    pub event_id: Seq<char>,
    pub kind: Seq<char>,
    pub state_key: Option<Seq<char>>,
}

impl View for PrevEvent {
    type V = PrevEventView;

    open spec fn view(&self) -> PrevEventView {
        PrevEventView {
            event_id: self.event_id@,
            kind: self.kind@,
            state_key: self.state_key.deep_view(),
        }
    }
}

impl Clone for PrevEvent {
    fn clone(&self) -> (r: Self)
        ensures
            r@ == self@,
    {
        PrevEvent {
            event_id: self.event_id.clone(),
            kind: self.kind.clone(),
            state_key: clone_optional(&self.state_key),
        }
    }
}

/// The state after an event, from the state before it and the short state key under which the
/// event stands if it is a state event.
pub open spec fn state_after_event(
    before: FullStateView,
    event: PrevEventView,
    shortstatekey: u64,
) -> FullStateView {
    if event.state_key is Some {
        before.insert(shortstatekey, event.event_id)
    } else {
        before
    }
}

/// How the search for a state ends.
pub enum StateOutcome {
    /// The state cannot be told from what is known here.
    Unknown,
    /// The state.
    Known(FullStateView),
    /// The search failed.
    Failed(ErrorView),
}

/// The outcome that `result` reports.
pub open spec fn outcome_of(result: Result<Option<FullState>, Error>) -> StateOutcome {
    match result {
        Ok(None) => StateOutcome::Unknown,
        Ok(Some(state)) => StateOutcome::Known(full_state(state)),
        Err(error) => StateOutcome::Failed(error@),
    }
}

/// `list` holds each key of `map` once, with its value.
pub open spec fn lists<K, V>(list: Seq<(K, V)>, map: Map<K, V>) -> bool {
    &&& forall|i: int, j: int|
        0 <= i < j < list.len() ==> (#[trigger] list[i]).0 != (#[trigger] list[j]).0
    &&& forall|i: int|
        0 <= i < list.len() ==> map.contains_key((#[trigger] list[i]).0) && map[list[i].0]
            == list[i].1
    &&& forall|k: K| #[trigger] map.contains_key(k) ==> has_first(list, k)
}

/// A pair of `list` has `k` in its first place.
pub open spec fn has_first<K, V>(list: Seq<(K, V)>, k: K) -> bool {
    exists|i: int| 0 <= i < list.len() && (#[trigger] list[i]).0 == k
}

/// A new key goes to the end of the list.
pub(crate) proof fn lists_push<K, V>(list: Seq<(K, V)>, map: Map<K, V>, key: K, value: V)
    requires
        lists(list, map),
        !map.contains_key(key),
    ensures
        lists(list.push((key, value)), map.insert(key, value)),
{
    let longer = list.push((key, value));
    let bigger = map.insert(key, value);
    assert forall|k: K| #[trigger] bigger.contains_key(k) implies has_first(longer, k) by {
        if k == key {
            assert(longer[list.len() as int].0 == k);
        } else {
            assert(has_first(list, k));
            let i = choose|i: int| 0 <= i < list.len() && (#[trigger] list[i]).0 == k;
            assert(longer[i].0 == k);
        }
    }
    assert forall|i: int, j: int| 0 <= i < j < longer.len() implies (#[trigger] longer[i]).0 != (
    #[trigger] longer[j]).0 by {
        if j < list.len() {
            assert(longer[i] == list[i] && longer[j] == list[j]);
        } else {
            assert(map.contains_key(list[i].0));
        }
    }
}

/// A key that is there keeps its place.
pub(crate) proof fn lists_update<K, V>(
    list: Seq<(K, V)>,
    map: Map<K, V>,
    place: int,
    key: K,
    value: V,
)
    requires
        lists(list, map),
        0 <= place < list.len(),
        list[place].0 == key,
    ensures
        lists(list.update(place, (key, value)), map.insert(key, value)),
{
    let changed = list.update(place, (key, value));
    let bigger = map.insert(key, value);
    assert forall|k: K| #[trigger] bigger.contains_key(k) implies has_first(changed, k) by {
        if k == key {
            assert(changed[place].0 == k);
        } else {
            assert(has_first(list, k));
            let i = choose|i: int| 0 <= i < list.len() && (#[trigger] list[i]).0 == k;
            assert(changed[i].0 == k);
        }
    }
    assert forall|i: int, j: int| 0 <= i < j < changed.len() implies (#[trigger] changed[i]).0 != (
    #[trigger] changed[j]).0 by {
        assert(changed[i].0 == list[i].0 && changed[j].0 == list[j].0);
    }
    assert forall|i: int| 0 <= i < changed.len() implies bigger.contains_key(
        (#[trigger] changed[i]).0,
    ) && bigger[changed[i].0] == changed[i].1 by {
        if i != place {
            assert(list[i].0 != key);
        }
    }
}

/// The entries of `state`, in no particular order.
pub(crate) fn entries_of(state: &FullState) -> (r: Vec<(u64, String)>)
    ensures
        lists(r.deep_view(), full_state(*state)),
{
    let mut r: Vec<(u64, String)> = Vec::new();
    let walk = state.iter();
    let ghost pairs = vstd::std_specs::iter::IteratorSpec::remaining(&walk);
    for (key, id) in it: walk
        invariant
            it.seq() == pairs,
            r.len() == it.index(),
            forall|i: int|
                0 <= i < r.len() ==> (#[trigger] r@[i]).0 == *pairs[i].0 && r@[i].1@
                    == (*pairs[i].1)@,
    {
        r.push((*key, id.clone()));
    }
    proof {
        let list = r.deep_view();
        let map = full_state(*state);
        assert forall|i: int| 0 <= i < list.len() implies state@.contains_key(*(#[trigger] pairs[i]).0)
            && state@[*pairs[i].0] == *pairs[i].1 && list[i] == (*pairs[i].0, (*pairs[i].1)@) by {
            assert(list[i] == (r@[i].0, r@[i].1@));
        }
        assert forall|i: int, j: int| 0 <= i < j < list.len() implies (#[trigger] list[i]).0 != (
        #[trigger] list[j]).0 by {
            assert(pairs[i] != pairs[j]);
            assert(state@[*pairs[i].0] == *pairs[i].1 && state@[*pairs[j].0] == *pairs[j].1);
        }
        assert forall|k: u64| #[trigger] map.contains_key(k) implies has_first(list, k) by {
            assert(state@.contains_key(k));
            let i = choose|i: int| 0 <= i < pairs.len() && pairs[i] == (&k, &state@[k]);
            assert(list[i].0 == k);
        }
        assert forall|i: int| 0 <= i < list.len() implies map.contains_key((#[trigger] list[i]).0)
            && map[list[i].0] == list[i].1 by {
            assert(state@.contains_key(*pairs[i].0) && state@[*pairs[i].0] == *pairs[i].1);
        }
    }
    r
}

/// The last of `pairs` with the short state key `key` has `id`.
pub open spec fn last_under(pairs: Seq<(u64, Seq<char>)>, key: u64, id: Seq<char>) -> bool {
    exists|i: int|
        0 <= i < pairs.len() && #[trigger] pairs[i] == (key, id) && forall|j: int|
            i < j < pairs.len() ==> (#[trigger] pairs[j]).0 != key
}

/// The state that pairs make up has under each short state key the event id of the last pair with it,
/// and no other short state key.
pub proof fn collected_holds_the_last_pairs(
    pairs: Seq<(u64, Seq<char>)>,
    key: u64,
    id: Seq<char>,
)
    ensures
        collected(pairs).contains_pair(key, id) <==> last_under(pairs, key, id),
    decreases pairs.len(),
{
    if pairs.len() > 0 {
        let fewer = pairs.drop_last();
        let last = pairs[pairs.len() - 1];
        collected_holds_the_last_pairs(fewer, key, id);
        if last.0 != key {
            if last_under(fewer, key, id) {
                let i = choose|i: int|
                    0 <= i < fewer.len() && #[trigger] fewer[i] == (key, id) && forall|j: int|
                        i < j < fewer.len() ==> (#[trigger] fewer[j]).0 != key;
                assert(pairs[i] == (key, id));
                assert forall|j: int| i < j < pairs.len() implies (#[trigger] pairs[j]).0 != key by {
                    if j < fewer.len() {
                        assert(fewer[j] == pairs[j]);
                    }
                }
            }
            if last_under(pairs, key, id) {
                let i = choose|i: int|
                    0 <= i < pairs.len() && #[trigger] pairs[i] == (key, id) && forall|j: int|
                        i < j < pairs.len() ==> (#[trigger] pairs[j]).0 != key;
                assert(fewer[i] == (key, id));
                assert forall|j: int| i < j < fewer.len() implies (#[trigger] fewer[j]).0 != key by {
                    assert(fewer[j] == pairs[j]);
                }
            }
        } else if last == (key, id) {
            assert(pairs[pairs.len() - 1] == (key, id));
        }
    }
}

/// What a state says is what it holds, key by key, and an outcome is what the result holds.
pub proof fn outcomes_say_what_is_held(state: FullState, key: u64, error: Error)
    ensures
        full_state(state).contains_key(key) <==> state@.contains_key(key),
        state@.contains_key(key) ==> full_state(state)[key] == state@[key]@,
        outcome_of(Ok(None)) == StateOutcome::Unknown,
        outcome_of(Ok(Some(state))) == StateOutcome::Known(full_state(state)),
        outcome_of(Err(error)) == StateOutcome::Failed(error@),
{
}

/// The state after `event` sets `key` to `id`, where `pairs` are the state before it and `own` is the
/// short state key of the event's own type and state key: a state event stands under its own key,
/// and all else is as before.
pub open spec fn set_after(
    pairs: Seq<(u64, Seq<char>)>,
    event: PrevEventView,
    own: u64,
    key: u64,
    id: Seq<char>,
) -> bool {
    if event.state_key is Some && key == own {
        id == event.event_id
    } else {
        last_under(pairs, key, id)
    }
}

/// What the services of the rooms know.
pub struct RoomsView {
    /// The short state hashes of the states before events.
    pub hashes: Map<Seq<char>, u64>,
    /// The events, or what is said of them instead.
    pub events: Map<Seq<char>, Result<PrevEventView, Seq<char>>>,
    /// The states by their short state hashes.
    pub states: Map<u64, Seq<(u64, Seq<char>)>>,
    /// The short state keys of types and state keys.
    pub shorts: Map<(Seq<char>, Seq<char>), u64>,
}

} // verus!
