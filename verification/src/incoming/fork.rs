//! The state and the auth chain after one of the events that come right before an incoming one.

use vstd::prelude::*;

use crate::collections::IdSet;
use crate::collections::StateKeyView;
use crate::collections::StateMap;
use crate::error::Error;
use crate::error::ErrorView;
use crate::incoming::collect_state;
use crate::incoming::collected;
use crate::incoming::collected_holds_the_last_pairs;
use crate::incoming::entries_of;
use crate::incoming::full_state;
use crate::incoming::has_first;
use crate::incoming::lists;
use crate::incoming::set_after;
use crate::incoming::state_after_event;
use crate::incoming::FullState;
use crate::incoming::FullStateView;
use crate::incoming::PrevEvent;
use crate::incoming::PrevEventView;

verus! {

broadcast use vstd::std_specs::hash::group_hash_axioms;

/// The search for the state after an event and for its auth chain.
pub enum ForkSearch {
    /// Waits for the state before the event.
    LeafState { room_id: String, event: PrevEvent },
    /// Waits for the short state key of the event.
    ShortStateKey { room_id: String, leaf_state: FullState, event_id: String },
    /// Waits for the auth chain and for what the short state keys of `entries` stand for.
    Parts { entries: Vec<(u64, String)> },
    /// Has an outcome.
    Done,
}

/// What a [`ForkSearch`] asks for.
pub enum ForkRequest {
    /// The state with a short state hash.
    FullState { sstatehash: u64 },
    /// The short state key of a type and state key, made if there is none yet.
    ShortStateKey { event_type: String, state_key: String },
    /// The auth chain of `starts`, and what each of `shortstatekeys` stands for.
    Parts { room_id: String, starts: Vec<String>, shortstatekeys: Vec<u64> },
    /// Nothing: the search ends with the state and the auth chain.
    Finish(Result<(StateMap, IdSet), Error>),
}

/// What comes back to a [`ForkSearch`].
pub enum ForkReply {
    /// The state, by short state keys.
    FullState(Vec<(u64, String)>),
    /// The short state key.
    ShortStateKey(u64),
    /// For each short state key the type and the state key for which it stands, if it is known;
    /// and the auth chain.
    Parts(Vec<Option<(String, String)>>, Result<Vec<String>, Error>),
}

/// What a [`ForkSearch`] holds.
pub enum ForkSearchView {
    LeafState { room_id: Seq<char>, event: PrevEventView },
    ShortStateKey { room_id: Seq<char>, leaf_state: FullStateView, event_id: Seq<char> },
    Parts { entries: Seq<(u64, Seq<char>)> },
    Done,
}

/// A state and an auth chain.
pub type ForkView = (Map<StateKeyView, Seq<char>>, Set<Seq<char>>);

/// What a [`ForkRequest`] says.
pub enum ForkRequestView {
    FullState { sstatehash: u64 },
    ShortStateKey { event_type: Seq<char>, state_key: Seq<char> },
    Parts { room_id: Seq<char>, starts: Seq<Seq<char>>, shortstatekeys: Seq<u64> },
    Finish(Result<ForkView, ErrorView>),
}

/// What a [`ForkReply`] says.
pub enum ForkReplyView {
    FullState(Seq<(u64, Seq<char>)>),
    ShortStateKey(u64),
    Parts(Seq<Option<StateKeyView>>, Result<Seq<Seq<char>>, ErrorView>),
}

impl View for ForkSearch {
    type V = ForkSearchView;

    open spec fn view(&self) -> ForkSearchView {
        match self {
            ForkSearch::LeafState { room_id, event } => ForkSearchView::LeafState {
                room_id: room_id@,
                event: event@,
            },
            ForkSearch::ShortStateKey {
                room_id,
                leaf_state,
                event_id,
            } => ForkSearchView::ShortStateKey {
                room_id: room_id@,
                leaf_state: full_state(*leaf_state),
                event_id: event_id@,
            },
            ForkSearch::Parts { entries } => ForkSearchView::Parts { entries: entries.deep_view() },
            ForkSearch::Done => ForkSearchView::Done,
        }
    }
}

/// What the result of a fork says.
pub open spec fn fork_of(result: Result<(StateMap, IdSet), Error>) -> Result<ForkView, ErrorView> {
    match result {
        Ok((state, chain)) => Ok((state@, chain@)),
        Err(error) => Err(error@),
    }
}

impl View for ForkRequest {
    type V = ForkRequestView;

    open spec fn view(&self) -> ForkRequestView {
        match self {
            ForkRequest::FullState { sstatehash } => ForkRequestView::FullState {
                sstatehash: *sstatehash,
            },
            ForkRequest::ShortStateKey { event_type, state_key } => ForkRequestView::ShortStateKey {
                event_type: event_type@,
                state_key: state_key@,
            },
            ForkRequest::Parts { room_id, starts, shortstatekeys } => ForkRequestView::Parts {
                room_id: room_id@,
                starts: starts.deep_view(),
                shortstatekeys: shortstatekeys@,
            },
            ForkRequest::Finish(result) => ForkRequestView::Finish(fork_of(*result)),
        }
    }
}

impl View for ForkReply {
    type V = ForkReplyView;

    open spec fn view(&self) -> ForkReplyView {
        match self {
            ForkReply::FullState(pairs) => ForkReplyView::FullState(pairs.deep_view()),
            ForkReply::ShortStateKey(key) => ForkReplyView::ShortStateKey(*key),
            ForkReply::Parts(keys, chain) => ForkReplyView::Parts(
                keys.deep_view(),
                match chain {
                    Ok(chain) => Ok(chain.deep_view()),
                    Err(error) => Err(error@),
                },
            ),
        }
    }
}

/// The state that `entries` make up under the keys for which their short state keys stand; an
/// entry whose short state key is not known is left out.
pub open spec fn keyed(
    entries: Seq<(u64, Seq<char>)>,
    keys: Seq<Option<StateKeyView>>,
) -> Map<StateKeyView, Seq<char>>
    decreases entries.len(),
{
    if entries.len() == 0 {
        Map::empty()
    } else {
        let fewer = keyed(entries.drop_last(), keys);
        match keys[entries.len() - 1] {
            Some(key) => fewer.insert(key, entries.last().1),
            None => fewer,
        }
    }
}

/// The search waits for the parts of the fork with the state `leaf_state`, and asks for the auth
/// chain of its events and for what its short state keys stand for, both in one order.
pub open spec fn asks_for_parts(
    room_id: Seq<char>,
    leaf_state: FullStateView,
    next: ForkSearchView,
    request: ForkRequestView,
) -> bool {
    &&& next is Parts
    &&& lists(next->entries, leaf_state)
    &&& request == ForkRequestView::Parts {
        room_id,
        starts: next->entries.map_values(|entry: (u64, Seq<char>)| entry.1),
        shortstatekeys: next->entries.map_values(|entry: (u64, Seq<char>)| entry.0),
    }
}

impl ForkSearchView {
    /// The search goes on with this reply.
    pub open spec fn awaits(self, reply: ForkReplyView) -> bool {
        match (self, reply) {
            (ForkSearchView::LeafState { .. }, ForkReplyView::FullState(_)) => true,
            (ForkSearchView::ShortStateKey { .. }, ForkReplyView::ShortStateKey(_)) => true,
            (ForkSearchView::Parts { entries }, ForkReplyView::Parts(keys, chain)) => chain is Ok
                ==> keys.len() == entries.len(),
            _ => false,
        }
    }

    /// The search goes on to `next` and `request` with a reply. The event, if it is a state event,
    /// is put into the state before it. The fork fails only where its auth chain does.
    pub open spec fn goes_to(
        self,
        reply: ForkReplyView,
        next: ForkSearchView,
        request: ForkRequestView,
    ) -> bool
        recommends
            self.awaits(reply),
    {
        match (self, reply) {
            (
                ForkSearchView::LeafState { room_id, event },
                ForkReplyView::FullState(pairs),
            ) => match event.state_key {
                Some(state_key) => {
                    &&& next == ForkSearchView::ShortStateKey {
                        room_id,
                        leaf_state: collected(pairs),
                        event_id: event.event_id,
                    }
                    &&& request == ForkRequestView::ShortStateKey {
                        event_type: event.kind,
                        state_key,
                    }
                },
                None => asks_for_parts(room_id, collected(pairs), next, request),
            },
            (
                ForkSearchView::ShortStateKey { room_id, leaf_state, event_id },
                ForkReplyView::ShortStateKey(key),
            ) => asks_for_parts(room_id, leaf_state.insert(key, event_id), next, request),
            (ForkSearchView::Parts { entries }, ForkReplyView::Parts(keys, Ok(chain))) => {
                &&& next is Done
                &&& request == ForkRequestView::Finish(Ok((keyed(entries, keys), chain.to_set())))
            },
            (ForkSearchView::Parts { .. }, ForkReplyView::Parts(_, Err(error))) => {
                &&& next is Done
                &&& request == ForkRequestView::Finish(Err(error))
            },
            _ => true,
        }
    }
}

/// How the search starts.
pub open spec fn fork_start(room_id: Seq<char>, sstatehash: u64, event: PrevEventView) -> (
    ForkSearchView,
    ForkRequestView,
) {
    (ForkSearchView::LeafState { room_id, event }, ForkRequestView::FullState { sstatehash })
}

/// The search asks for the state with the short state hash that it is given, and is about the room and
/// the event that it is given: two searches start alike only where they are about the same.
pub proof fn forks_start_from_what_is_given(
    one: (Seq<char>, u64, PrevEventView),
    other: (Seq<char>, u64, PrevEventView),
)
    ensures
        fork_start(one.0, one.1, one.2) == fork_start(other.0, other.1, other.2) <==> one == other,
        fork_start(one.0, one.1, one.2).1 == (ForkRequestView::FullState { sstatehash: one.1 }),
        fork_start(one.0, one.1, one.2).0 == (ForkSearchView::LeafState {
            room_id: one.0,
            event: one.2,
        }),
{
}

/// Starts the search for the state after `prev_event`, whose own state has the short state hash
/// `sstatehash`, and for its auth chain.
pub fn state_at_incoming_fork(room_id: &str, sstatehash: u64, prev_event: PrevEvent) -> (r: (
    ForkSearch,
    ForkRequest,
))
    ensures
        r.0@ == (ForkSearchView::LeafState { room_id: room_id@, event: prev_event@ }),
        r.1@ == (ForkRequestView::FullState { sstatehash }),
        (r.0@, r.1@) == fork_start(room_id@, sstatehash, prev_event@),
{
    (
        ForkSearch::LeafState { room_id: room_id.to_owned(), event: prev_event },
        ForkRequest::FullState { sstatehash },
    )
}

/// Asks for the parts of a fork.
fn ask_for_parts(room_id: String, leaf_state: FullState) -> (r: (ForkSearch, ForkRequest))
    ensures
        asks_for_parts(room_id@, full_state(leaf_state), r.0@, r.1@),
{
    let entries = entries_of(&leaf_state);
    let mut starts: Vec<String> = Vec::new();
    let mut shortstatekeys: Vec<u64> = Vec::new();
    for i in 0..entries.len()
        invariant
            starts.len() == i,
            shortstatekeys.len() == i,
            forall|j: int| 0 <= j < i ==> (#[trigger] starts@[j])@ == entries@[j].1@,
            forall|j: int| 0 <= j < i ==> #[trigger] shortstatekeys@[j] == entries@[j].0,
    {
        starts.push(entries[i].1.clone());
        shortstatekeys.push(entries[i].0);
    }
    proof {
        assert(starts.deep_view() =~= entries.deep_view().map_values(
            |entry: (u64, Seq<char>)| entry.1,
        ));
        assert(shortstatekeys@ =~= entries.deep_view().map_values(
            |entry: (u64, Seq<char>)| entry.0,
        ));
    }
    (ForkSearch::Parts { entries }, ForkRequest::Parts { room_id, starts, shortstatekeys })
}

/// The state of a fork under full keys.
fn keyed_state(entries: &Vec<(u64, String)>, keys: Vec<Option<(String, String)>>) -> (r: StateMap)
    requires
        keys.len() == entries.len(),
    ensures
        r@ == keyed(entries.deep_view(), keys.deep_view()),
{
    let mut r = StateMap::new();
    let ghost all = entries.deep_view();
    for i in 0..entries.len()
        invariant
            all == entries.deep_view(),
            keys.len() == entries.len(),
            r@ == keyed(all.take(i as int), keys.deep_view()),
    {
        proof {
            assert(all.take(i + 1).drop_last() =~= all.take(i as int));
            assert(keys.deep_view()[i as int] == keys@[i as int].deep_view());
        }
        match &keys[i] {
            Some((event_type, state_key)) => {
                r.insert(event_type.clone(), state_key.clone(), entries[i].1.clone());
            },
            None => {},
        }
    }
    assert(all.take(all.len() as int) =~= all);
    r
}

/// The set of `ids`.
fn id_set(ids: Vec<String>) -> (r: IdSet)
    ensures
        r@ == ids.deep_view().to_set(),
{
    let mut r = IdSet::new();
    let ghost all = ids.deep_view();
    assert(r@ =~= all.take(0).to_set());
    for i in 0..ids.len()
        invariant
            all == ids.deep_view(),
            r@ == all.take(i as int).to_set(),
    {
        r.insert(ids[i].clone());
        proof {
            assert(all.take(i + 1) =~= all.take(i as int).push(all[i as int]));
            all.take(i as int).lemma_push_to_set_commute(all[i as int]);
        }
    }
    assert(all.take(all.len() as int) =~= all);
    r
}

impl ForkSearch {
    /// Goes on with a reply.
    pub fn step(self, reply: ForkReply) -> (r: (ForkSearch, ForkRequest))
        requires
            self@.awaits(reply@),
        ensures
            self@.goes_to(reply@, r.0@, r.1@),
    {
        match (self, reply) {
            (ForkSearch::LeafState { room_id, event }, ForkReply::FullState(pairs)) => {
                let leaf_state = collect_state(pairs);
                let PrevEvent { event_id, kind, state_key } = event;
                match state_key {
                    Some(state_key) => (
                        ForkSearch::ShortStateKey { room_id, leaf_state, event_id },
                        ForkRequest::ShortStateKey { event_type: kind, state_key },
                    ),
                    None => ask_for_parts(room_id, leaf_state),
                }
            },
            (
                ForkSearch::ShortStateKey { room_id, leaf_state, event_id },
                ForkReply::ShortStateKey(key),
            ) => {
                let mut leaf_state = leaf_state;
                let ghost before = full_state(leaf_state);
                leaf_state.insert(key, event_id);
                assert(full_state(leaf_state) =~= before.insert(key, event_id@));
                ask_for_parts(room_id, leaf_state)
            },
            (ForkSearch::Parts { entries }, ForkReply::Parts(keys, chain)) => match chain {
                Ok(chain) => {
                    let fork_state = keyed_state(&entries, keys);
                    let auth_chain = id_set(chain);
                    (ForkSearch::Done, ForkRequest::Finish(Ok((fork_state, auth_chain))))
                },
                Err(error) => (ForkSearch::Done, ForkRequest::Finish(Err(error))),
            },
            _ => unreached(),
        }
    }
}

/// The search asks for the parts of the state after the event, whatever the database holds.
pub proof fn fork_asks_for_the_state_after_the_event(
    room_id: Seq<char>,
    event: PrevEventView,
    pairs: Seq<(u64, Seq<char>)>,
    shortstatekey: u64,
    asked: ForkSearchView,
    key_request: ForkRequestView,
    last: ForkSearchView,
    request: ForkRequestView,
)
    requires
        (ForkSearchView::LeafState { room_id, event }).goes_to(
            ForkReplyView::FullState(pairs),
            asked,
            key_request,
        ),
        if event.state_key is Some {
            asked.goes_to(ForkReplyView::ShortStateKey(shortstatekey), last, request)
        } else {
            last == asked && request == key_request
        },
    ensures
        asks_for_parts(
            room_id,
            state_after_event(collected(pairs), event, shortstatekey),
            last,
            request,
        ),
{
}

/// What the short state keys of `entries` stand for, by `names`.
pub open spec fn named_keys(
    entries: Seq<(u64, Seq<char>)>,
    names: Map<u64, StateKeyView>,
) -> Seq<Option<StateKeyView>> {
    entries.map_values(
        |entry: (u64, Seq<char>)|
            if names.contains_key(entry.0) {
                Some(names[entry.0])
            } else {
                None::<StateKeyView>
            },
    )
}

/// `leaf_state` sets `key` to `id`, under the short state key that stands for `key`.
pub open spec fn sets(
    leaf_state: FullStateView,
    names: Map<u64, StateKeyView>,
    shortstatekey: u64,
    key: StateKeyView,
    id: Seq<char>,
) -> bool {
    &&& leaf_state.contains_key(shortstatekey)
    &&& names.contains_key(shortstatekey)
    &&& names[shortstatekey] == key
    &&& leaf_state[shortstatekey] == id
}

/// Where no two short state keys stand for the same key, the state of a fork is the state after its
/// event, key by key, whatever the order in which it was walked: it sets what that state sets
/// under a known short state key, and nothing else.
pub proof fn fork_state_is_the_leaf_state_by_full_keys(
    leaf_state: FullStateView,
    entries: Seq<(u64, Seq<char>)>,
    names: Map<u64, StateKeyView>,
    key: StateKeyView,
    id: Seq<char>,
)
    requires
        lists(entries, leaf_state),
        forall|a: u64, b: u64|
            names.contains_key(a) && names.contains_key(b) && #[trigger] names[a]
                == #[trigger] names[b] ==> a == b,
    ensures
        keyed(entries, named_keys(entries, names)).contains_pair(key, id) <==> exists|
            shortstatekey: u64,
        | #[trigger] sets(leaf_state, names, shortstatekey, key, id),
{
    let keys = named_keys(entries, names);
    keyed_holds_the_named_entries(entries, keys, names, entries.len() as int, key, id);
    assert(entries.take(entries.len() as int) =~= entries);
    if keyed(entries, keys).contains_pair(key, id) {
        let i = choose|i: int|
            0 <= i < entries.len() && #[trigger] keys[i] == Some(key) && entries[i].1 == id;
        assert(sets(leaf_state, names, entries[i].0, key, id));
    }
    if exists|shortstatekey: u64| #[trigger] sets(leaf_state, names, shortstatekey, key, id) {
        let short = choose|short: u64| #[trigger] sets(leaf_state, names, short, key, id);
        assert(has_first(entries, short));
        let i = choose|i: int| 0 <= i < entries.len() && (#[trigger] entries[i]).0 == short;
        assert(keys[i] == Some(key) && entries[i].1 == id);
    }
}

/// The first `n` entries set what their keys name.
proof fn keyed_holds_the_named_entries(
    entries: Seq<(u64, Seq<char>)>,
    keys: Seq<Option<StateKeyView>>,
    names: Map<u64, StateKeyView>,
    n: int,
    key: StateKeyView,
    id: Seq<char>,
)
    requires
        0 <= n <= entries.len(),
        keys == named_keys(entries, names),
        forall|i: int, j: int|
            0 <= i < j < entries.len() ==> (#[trigger] entries[i]).0 != (#[trigger] entries[j]).0,
        forall|a: u64, b: u64|
            names.contains_key(a) && names.contains_key(b) && #[trigger] names[a]
                == #[trigger] names[b] ==> a == b,
    ensures
        keyed(entries.take(n), keys).contains_pair(key, id) <==> exists|i: int|
            0 <= i < n && #[trigger] keys[i] == Some(key) && entries[i].1 == id,
    decreases n,
{
    if n > 0 {
        keyed_holds_the_named_entries(entries, keys, names, n - 1, key, id);
        assert(entries.take(n).drop_last() =~= entries.take(n - 1));
        let last = keys[n - 1];
        if last == Some(key) {
            assert forall|i: int| 0 <= i < n - 1 implies #[trigger] keys[i] != Some(key) by {
                if keys[i] == Some(key) {
                    assert(names[entries[i].0] == names[entries[n - 1].0]);
                    assert(entries[i].0 != entries[n - 1].0);
                }
            }
        }
    }
}

/// `starts` and `shortstatekeys` list a state in one order: each short state key that it has once, and
/// at the same place the event id that it sets. `set` says which it has and sets.
pub open spec fn lists_state(
    starts: Seq<Seq<char>>,
    shortstatekeys: Seq<u64>,
    set: spec_fn(u64, Seq<char>) -> bool,
) -> bool {
    &&& starts.len() == shortstatekeys.len()
    &&& shortstatekeys.no_duplicates()
    &&& forall|i: int|
        0 <= i < starts.len() ==> set(#[trigger] shortstatekeys[i], starts[i])
    &&& forall|key: u64, id: Seq<char>| #[trigger]
        set(key, id) ==> exists|i: int|
            0 <= i < starts.len() && #[trigger] shortstatekeys[i] == key && starts[i] == id
}

/// The place `i` of a listed state sets `key` to `id`: the lookup of its short state key gave `key`.
pub open spec fn set_at(
    starts: Seq<Seq<char>>,
    keys: Seq<Option<StateKeyView>>,
    i: int,
    key: StateKeyView,
    id: Seq<char>,
) -> bool {
    0 <= i < starts.len() && keys[i] == Some(key) && starts[i] == id
}

/// A whole run of the search. It asks for the short state key of the event's own type and state key,
/// where the event is a state event; then, of the state after the event, for the auth chain of all
/// its events and for the lookup of all its short state keys. Where the auth chain comes back, the
/// search finishes with exactly the ids that came back, and with a state that has a key if and only
/// if a lookup gave it, set to the event that stands under a short state key whose lookup gave it;
/// where the auth chain fails, the search fails with that error.
pub proof fn fork_finishes_with_the_state_after_the_event(
    room_id: Seq<char>,
    event: PrevEventView,
    pairs: Seq<(u64, Seq<char>)>,
    own: u64,
    keys: Seq<Option<StateKeyView>>,
    chain: Result<Seq<Seq<char>>, ErrorView>,
    asked: ForkSearchView,
    key_request: ForkRequestView,
    parted: ForkSearchView,
    parts_request: ForkRequestView,
    done: ForkSearchView,
    request: ForkRequestView,
    key: StateKeyView,
    id: Seq<char>,
)
    requires
        (ForkSearchView::LeafState { room_id, event }).goes_to(
            ForkReplyView::FullState(pairs),
            asked,
            key_request,
        ),
        if event.state_key is Some {
            asked.goes_to(ForkReplyView::ShortStateKey(own), parted, parts_request)
        } else {
            parted == asked && parts_request == key_request
        },
        parts_request is Parts && chain is Ok ==> keys.len() == parts_request->starts.len(),
        parted.goes_to(ForkReplyView::Parts(keys, chain), done, request),
    ensures
        event.state_key matches Some(state_key) ==> key_request == (ForkRequestView::ShortStateKey {
            event_type: event.kind,
            state_key,
        }),
        parts_request is Parts,
        parts_request->room_id == room_id,
        lists_state(
            parts_request->starts,
            parts_request->shortstatekeys,
            |short: u64, id: Seq<char>| set_after(pairs, event, own, short, id),
        ),
        request is Finish,
        chain matches Err(error) ==> request == ForkRequestView::Finish(Err(error)),
        chain matches Ok(chain) ==> {
            &&& request->Finish_0 is Ok
            &&& {
                let (state, auth_chain) = request->Finish_0->Ok_0;
                let starts = parts_request->starts;
                &&& auth_chain.contains(id) <==> chain.contains(id)
                &&& state.contains_key(key) <==> exists|i: int|
                    0 <= i < keys.len() && #[trigger] keys[i] == Some(key)
                &&& state.contains_pair(key, id) ==> exists|i: int| #[trigger]
                    set_at(starts, keys, i, key, id)
                &&& (forall|i: int, j: int|
                    0 <= i < j < keys.len() && keys[i] is Some ==> #[trigger] keys[i]
                        != #[trigger] keys[j]) ==> (state.contains_pair(key, id) <==> exists|i: int|
                    #[trigger] set_at(starts, keys, i, key, id))
            }
        },
{
    let leaf = state_after_event(collected(pairs), event, own);
    assert(asks_for_parts(room_id, leaf, parted, parts_request));
    let entries = parted->entries;
    let starts = parts_request->starts;
    let shorts = parts_request->shortstatekeys;
    assert forall|short: u64, id: Seq<char>| #[trigger]
        leaf.contains_pair(short, id) <==> set_after(pairs, event, own, short, id) by {
        collected_holds_the_last_pairs(pairs, short, id);
    }
    assert forall|i: int, j: int| 0 <= i < j < shorts.len() implies shorts[i] != shorts[j] by {
        assert(entries[i].0 != entries[j].0);
    }
    let set = |short: u64, id: Seq<char>| set_after(pairs, event, own, short, id);
    assert forall|i: int| 0 <= i < starts.len() implies set(#[trigger] shorts[i], starts[i]) by {
        assert(leaf.contains_key(entries[i].0) && leaf[entries[i].0] == entries[i].1);
        assert(leaf.contains_pair(shorts[i], starts[i]));
    }
    assert forall|short: u64, id: Seq<char>| #[trigger] set(short, id) implies exists|i: int|
        0 <= i < starts.len() && #[trigger] shorts[i] == short && starts[i] == id by {
        assert(leaf.contains_pair(short, id));
        assert(has_first(entries, short));
        let i = choose|i: int| 0 <= i < entries.len() && (#[trigger] entries[i]).0 == short;
        assert(shorts[i] == short && starts[i] == id);
    }
    if chain is Ok {
        keyed_has_what_the_lookups_gave(entries, keys, entries.len() as int, key, id);
        assert(entries.take(entries.len() as int) =~= entries);
        if keyed(entries, keys).contains_pair(key, id) {
            let i = choose|i: int|
                0 <= i < entries.len() && #[trigger] keys[i] == Some(key) && entries[i].1 == id;
            assert(set_at(starts, keys, i, key, id));
        }
        if (forall|i: int, j: int|
            0 <= i < j < keys.len() && keys[i] is Some ==> #[trigger] keys[i] != #[trigger] keys[j])
            && exists|i: int| #[trigger] set_at(starts, keys, i, key, id) {
            let i = choose|i: int| #[trigger] set_at(starts, keys, i, key, id);
            assert(keys[i] == Some(key));
            assert(keyed(entries, keys).contains_key(key));
            let other = keyed(entries, keys)[key];
            keyed_has_what_the_lookups_gave(entries, keys, entries.len() as int, key, other);
            assert(keyed(entries, keys).contains_pair(key, other));
            let j = choose|j: int|
                0 <= j < entries.len() && #[trigger] keys[j] == Some(key) && entries[j].1 == other;
            assert(i == j);
        }
        assert(chain->Ok_0.to_set().contains(id) <==> chain->Ok_0.contains(id));
    }
}

/// The first `n` entries set the keys that their lookups gave, each to an event that stands at such a
/// place.
proof fn keyed_has_what_the_lookups_gave(
    entries: Seq<(u64, Seq<char>)>,
    keys: Seq<Option<StateKeyView>>,
    n: int,
    key: StateKeyView,
    id: Seq<char>,
)
    requires
        0 <= n <= entries.len(),
        keys.len() == entries.len(),
    ensures
        keyed(entries.take(n), keys).contains_key(key) <==> exists|i: int|
            0 <= i < n && #[trigger] keys[i] == Some(key),
        keyed(entries.take(n), keys).contains_pair(key, id) ==> exists|i: int|
            0 <= i < n && #[trigger] keys[i] == Some(key) && entries[i].1 == id,
    decreases n,
{
    if n > 0 {
        keyed_has_what_the_lookups_gave(entries, keys, n - 1, key, id);
        assert(entries.take(n).drop_last() =~= entries.take(n - 1));
        if keys[n - 1] == Some(key) {
            assert(0 <= n - 1 < n && keys[n - 1] == Some(key));
        }
    }
}

} // verus!
