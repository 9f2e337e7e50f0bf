//! The state before an event that has several previous events, resolved from the states after
//! them.

use vstd::prelude::*;

use crate::collections::state_of;
use crate::collections::IdSet;
use crate::collections::StateKeyView;
use crate::collections::StateMap;
use crate::error::Error;
use crate::error::ErrorView;
use crate::incoming::collect_state;
use crate::incoming::collected;
use crate::incoming::collected_holds_the_last_pairs;
use crate::incoming::fork::fork_of;
use crate::incoming::fork::ForkView;
use crate::incoming::has_first;
use crate::incoming::last_under;
use crate::incoming::lists;
use crate::incoming::lists_push;
use crate::incoming::lists_update;
use crate::incoming::outcome_of;
use crate::incoming::FullState;
use crate::incoming::PrevEvent;
use crate::incoming::PrevEventView;
use crate::incoming::StateOutcome;

verus! {

/// The search for the state before an event that has several previous events.
pub enum ResolvedSearch {
    /// Waits for the `asked` previous events and the short state hashes of the states before them.
    Extremities { room_id: String, room_version: String, asked: usize },
    /// Waits for the states and auth chains after `asked` of the previous events.
    Forks { room_version: String, asked: usize },
    /// Waits for the states to be resolved.
    Resolution,
    /// Waits for the short state keys under which `event_ids` stand.
    ShortStateKeys { event_ids: Vec<String> },
    /// Has an outcome.
    Done,
}

/// What a [`ResolvedSearch`] asks for.
pub enum ResolvedRequest {
    /// Of each event the event itself and the short state hash of the state before it.
    Extremities { prev_events: Vec<String> },
    /// The state and the auth chain after each of the events, whose states before them have these
    /// short state hashes.
    Forks { room_id: String, extremities: Vec<(u64, PrevEvent)> },
    /// The resolution of the states by the rules of a room version.
    Resolution {
        room_version: String,
        fork_states: Vec<StateMap>,
        auth_chain_sets: Vec<IdSet>,
    },
    /// The short state keys of types and state keys, made where there are none yet.
    ShortStateKeys { keys: Vec<(String, String)> },
    /// Nothing: the search ends.
    Finish(Result<Option<FullState>, Error>),
}

/// What comes back to a [`ResolvedSearch`].
pub enum ResolvedReply {
    /// For each event, in the order in which they came, the short state hash and the event, each of
    /// them where it could be had. After an event of which one could not, no more need to follow.
    Extremities(Vec<(Option<u64>, Option<PrevEvent>)>),
    /// For each event its state and auth chain, or why they could not be had. After such a one no
    /// more need to follow.
    Forks(Vec<Result<(StateMap, IdSet), Error>>),
    /// The resolved state, if there is one.
    Resolution(Option<StateMap>),
    /// The short state keys.
    ShortStateKeys(Vec<u64>),
}

/// What a [`ResolvedSearch`] holds.
pub enum ResolvedSearchView {
    Extremities { room_id: Seq<char>, room_version: Seq<char>, asked: int },
    Forks { room_version: Seq<char>, asked: int },
    Resolution,
    ShortStateKeys { event_ids: Seq<Seq<char>> },
    Done,
}

/// What a [`ResolvedRequest`] says.
pub enum ResolvedRequestView {
    Extremities { prev_events: Seq<Seq<char>> },
    Forks { room_id: Seq<char>, extremities: Seq<(u64, PrevEventView)> },
    Resolution {
        room_version: Seq<char>,
        fork_states: Seq<Map<StateKeyView, Seq<char>>>,
        auth_chain_sets: Seq<Set<Seq<char>>>,
    },
    ShortStateKeys { keys: Seq<StateKeyView> },
    Finish(StateOutcome),
}

/// What a [`ResolvedReply`] says.
pub enum ResolvedReplyView {
    Extremities(Seq<Option<(u64, PrevEventView)>>),
    Forks(Seq<Result<ForkView, ErrorView>>),
    Resolution(Option<Map<StateKeyView, Seq<char>>>),
    ShortStateKeys(Seq<u64>),
}

impl View for ResolvedSearch {
    type V = ResolvedSearchView;

    open spec fn view(&self) -> ResolvedSearchView {
        match self {
            ResolvedSearch::Extremities {
                room_id,
                room_version,
                asked,
            } => ResolvedSearchView::Extremities {
                room_id: room_id@,
                room_version: room_version@,
                asked: *asked as int,
            },
            ResolvedSearch::Forks { room_version, asked } => ResolvedSearchView::Forks {
                room_version: room_version@,
                asked: *asked as int,
            },
            ResolvedSearch::Resolution => ResolvedSearchView::Resolution,
            ResolvedSearch::ShortStateKeys { event_ids } => ResolvedSearchView::ShortStateKeys {
                event_ids: event_ids.deep_view(),
            },
            ResolvedSearch::Done => ResolvedSearchView::Done,
        }
    }
}

/// What the list of extremities says.
pub open spec fn extremities_of(list: Seq<(u64, PrevEvent)>) -> Seq<(u64, PrevEventView)> {
    list.map_values(|entry: (u64, PrevEvent)| (entry.0, entry.1@))
}

/// What the found extremities say: an extremity is found where both its short state hash and its
/// event are.
pub open spec fn found_of(found: Seq<(Option<u64>, Option<PrevEvent>)>) -> Seq<
    Option<(u64, PrevEventView)>,
> {
    found.map_values(
        |entry: (Option<u64>, Option<PrevEvent>)|
            match entry {
                (Some(hash), Some(event)) => Some((hash, event@)),
                _ => None,
            },
    )
}

/// What the states say.
pub open spec fn states_of(states: Seq<StateMap>) -> Seq<Map<StateKeyView, Seq<char>>> {
    states.map_values(|state: StateMap| state@)
}

/// What the sets say.
pub open spec fn sets_of(sets: Seq<IdSet>) -> Seq<Set<Seq<char>>> {
    sets.map_values(|ids: IdSet| ids@)
}

/// What the results of the forks say.
pub open spec fn forks_of(forks: Seq<Result<(StateMap, IdSet), Error>>) -> Seq<
    Result<ForkView, ErrorView>,
> {
    forks.map_values(|fork: Result<(StateMap, IdSet), Error>| fork_of(fork))
}

impl View for ResolvedRequest {
    type V = ResolvedRequestView;

    open spec fn view(&self) -> ResolvedRequestView {
        match self {
            ResolvedRequest::Extremities { prev_events } => ResolvedRequestView::Extremities {
                prev_events: prev_events.deep_view(),
            },
            ResolvedRequest::Forks { room_id, extremities } => ResolvedRequestView::Forks {
                room_id: room_id@,
                extremities: extremities_of(extremities@),
            },
            ResolvedRequest::Resolution {
                room_version,
                fork_states,
                auth_chain_sets,
            } => ResolvedRequestView::Resolution {
                room_version: room_version@,
                fork_states: states_of(fork_states@),
                auth_chain_sets: sets_of(auth_chain_sets@),
            },
            ResolvedRequest::ShortStateKeys { keys } => ResolvedRequestView::ShortStateKeys {
                keys: keys.deep_view(),
            },
            ResolvedRequest::Finish(result) => ResolvedRequestView::Finish(outcome_of(*result)),
        }
    }
}

impl View for ResolvedReply {
    type V = ResolvedReplyView;

    open spec fn view(&self) -> ResolvedReplyView {
        match self {
            ResolvedReply::Extremities(found) => ResolvedReplyView::Extremities(found_of(found@)),
            ResolvedReply::Forks(forks) => ResolvedReplyView::Forks(forks_of(forks@)),
            ResolvedReply::Resolution(state) => ResolvedReplyView::Resolution(
                match state {
                    Some(state) => Some(state@),
                    None => None,
                },
            ),
            ResolvedReply::ShortStateKeys(keys) => ResolvedReplyView::ShortStateKeys(keys@),
        }
    }
}

/// All of the extremities were found.
pub open spec fn all_found(found: Seq<Option<(u64, PrevEventView)>>) -> bool {
    forall|i: int| 0 <= i < found.len() ==> #[trigger] found[i] is Some
}

/// All of the forks were had.
pub open spec fn all_succeeded(forks: Seq<Result<ForkView, ErrorView>>) -> bool {
    forall|i: int| 0 <= i < forks.len() ==> #[trigger] forks[i] is Ok
}

/// The extremities by their short state hashes; of two with the same hash the later one.
pub open spec fn by_hash(found: Seq<Option<(u64, PrevEventView)>>) -> Map<u64, PrevEventView>
    decreases found.len(),
{
    if found.len() == 0 {
        Map::empty()
    } else {
        let (hash, event) = found.last()->0;
        by_hash(found.drop_last()).insert(hash, event)
    }
}

/// The extremities by their short state hashes are those that were found: each hash that was found
/// and no other, with an event that was found under it.
pub proof fn by_hash_holds_what_was_found(found: Seq<Option<(u64, PrevEventView)>>, hash: u64)
    requires
        all_found(found),
    ensures
        by_hash(found).contains_key(hash) <==> exists|i: int|
            0 <= i < found.len() && ((#[trigger] found[i])->0).0 == hash,
        by_hash(found).contains_key(hash) ==> found.contains(Some((hash, by_hash(found)[hash]))),
    decreases found.len(),
{
    if found.len() > 0 {
        let fewer = found.drop_last();
        assert forall|i: int| 0 <= i < fewer.len() implies #[trigger] fewer[i] is Some by {
            assert(fewer[i] == found[i]);
        }
        by_hash_holds_what_was_found(fewer, hash);
        let last = found[found.len() - 1];
        assert(last is Some);
        if (last->0).0 != hash {
            if by_hash(fewer).contains_key(hash) {
                let event = by_hash(fewer)[hash];
                let i = choose|i: int| 0 <= i < fewer.len() && fewer[i] == Some((hash, event));
                assert(found[i] == Some((hash, event)));
            }
            if exists|i: int| 0 <= i < found.len() && ((#[trigger] found[i])->0).0 == hash {
                let i = choose|i: int| 0 <= i < found.len() && ((#[trigger] found[i])->0).0 == hash;
                assert(fewer[i] == found[i]);
            }
        } else {
            assert(last == Some((hash, by_hash(found)[hash])));
        }
    }
}

/// The fork at `place` is the first that failed, with `error`.
pub open spec fn first_failure(
    forks: Seq<Result<ForkView, ErrorView>>,
    place: int,
    error: ErrorView,
) -> bool {
    &&& 0 <= place < forks.len()
    &&& forks[place] == Err::<ForkView, ErrorView>(error)
    &&& forall|i: int| 0 <= i < place ==> #[trigger] forks[i] is Ok
}

/// The pairs of `keys` and `ids` at the same place.
pub open spec fn paired<K>(keys: Seq<K>, ids: Seq<Seq<char>>) -> Seq<(K, Seq<char>)> {
    Seq::new(ids.len(), |i: int| (keys[i], ids[i]))
}

impl ResolvedSearchView {
    /// The search goes on with this reply: a reply to each thing that was asked for, or as many as
    /// it takes to tell that the search ends.
    pub open spec fn awaits(self, reply: ResolvedReplyView) -> bool {
        match (self, reply) {
            (
                ResolvedSearchView::Extremities { asked, .. },
                ResolvedReplyView::Extremities(found),
            ) => all_found(found) ==> found.len() == asked,
            (
                ResolvedSearchView::Forks { asked, .. },
                ResolvedReplyView::Forks(forks),
            ) => all_succeeded(forks) ==> forks.len() == asked,
            (ResolvedSearchView::Resolution, ResolvedReplyView::Resolution(_)) => true,
            (
                ResolvedSearchView::ShortStateKeys { event_ids },
                ResolvedReplyView::ShortStateKeys(keys),
            ) => keys.len() == event_ids.len(),
            _ => false,
        }
    }

    /// The search goes on to `next` and `request` with a reply. Where a previous event or its state
    /// is missing, or the states cannot be resolved, the state is unknown; where a fork fails, the
    /// search does. Previous events with the same state before them are one fork.
    pub open spec fn goes_to(
        self,
        reply: ResolvedReplyView,
        next: ResolvedSearchView,
        request: ResolvedRequestView,
    ) -> bool
        recommends
            self.awaits(reply),
    {
        match (self, reply) {
            (
                ResolvedSearchView::Extremities { room_id, room_version, .. },
                ResolvedReplyView::Extremities(found),
            ) => if all_found(found) {
                &&& request is Forks
                &&& next == ResolvedSearchView::Forks {
                    room_version,
                    asked: request->extremities.len() as int,
                }
                &&& request->Forks_room_id == room_id
                &&& lists(request->extremities, by_hash(found))
            } else {
                &&& next is Done
                &&& request == ResolvedRequestView::Finish(StateOutcome::Unknown)
            },
            (
                ResolvedSearchView::Forks { room_version, .. },
                ResolvedReplyView::Forks(forks),
            ) => if all_succeeded(forks) {
                &&& next is Resolution
                &&& request == ResolvedRequestView::Resolution {
                    room_version,
                    fork_states: forks.map_values(|fork: Result<ForkView, ErrorView>| fork->Ok_0.0),
                    auth_chain_sets: forks.map_values(
                        |fork: Result<ForkView, ErrorView>| fork->Ok_0.1,
                    ),
                }
            } else {
                &&& next is Done
                &&& exists|place: int, error: ErrorView| #[trigger]
                    first_failure(forks, place, error) && request == ResolvedRequestView::Finish(
                        StateOutcome::Failed(error),
                    )
            },
            (ResolvedSearchView::Resolution, ResolvedReplyView::Resolution(Some(state))) => {
                &&& next is ShortStateKeys
                &&& request is ShortStateKeys
                &&& request->keys.len() == next->event_ids.len()
                &&& lists(paired(request->keys, next->event_ids), state)
            },
            (ResolvedSearchView::Resolution, ResolvedReplyView::Resolution(None)) => {
                &&& next is Done
                &&& request == ResolvedRequestView::Finish(StateOutcome::Unknown)
            },
            (
                ResolvedSearchView::ShortStateKeys { event_ids },
                ResolvedReplyView::ShortStateKeys(keys),
            ) => {
                &&& next is Done
                &&& request == ResolvedRequestView::Finish(
                    StateOutcome::Known(collected(paired(keys, event_ids))),
                )
            },
            _ => true,
        }
    }
}

/// How the search starts.
pub open spec fn resolved_start(
    prev_events: Seq<Seq<char>>,
    room_id: Seq<char>,
    room_version: Seq<char>,
) -> (ResolvedSearchView, ResolvedRequestView) {
    (
        ResolvedSearchView::Extremities {
            room_id,
            room_version,
            asked: prev_events.len() as int,
        },
        ResolvedRequestView::Extremities { prev_events },
    )
}

/// The search asks for every previous event, each at its place, and goes on only with as many replies,
/// unless one of them is missing.
pub proof fn every_previous_event_is_asked_for(
    prev_events: Seq<Seq<char>>,
    room_id: Seq<char>,
    room_version: Seq<char>,
    found: Seq<Option<(u64, PrevEventView)>>,
)
    ensures
        ({
            let (search, request) = resolved_start(prev_events, room_id, room_version);
            &&& request == ResolvedRequestView::Extremities { prev_events }
            &&& search == ResolvedSearchView::Extremities {
                room_id,
                room_version,
                asked: prev_events.len() as int,
            }
            &&& search.awaits(ResolvedReplyView::Extremities(found)) <==> found.contains(None)
                || found.len() == prev_events.len()
        }),
{
    if !found.contains(None) {
        assert forall|i: int| 0 <= i < found.len() implies #[trigger] found[i] is Some by {
            if found[i] is None {
                assert(found.contains(None));
            }
        }
    } else {
        let i = choose|i: int| 0 <= i < found.len() && found[i] == None::<(u64, PrevEventView)>;
        assert(found[i] is None);
    }
}

/// Starts the search for the state before an event that has several previous events: asks for
/// those events and for the short state hashes of the states before them.
pub fn state_at_incoming_resolved(
    prev_events: Vec<String>,
    room_id: &str,
    room_version_id: &str,
) -> (r: (ResolvedSearch, ResolvedRequest))
    ensures
        r.0@ == (ResolvedSearchView::Extremities {
            room_id: room_id@,
            room_version: room_version_id@,
            asked: prev_events@.len() as int,
        }),
        r.1@ == (ResolvedRequestView::Extremities { prev_events: prev_events.deep_view() }),
        (r.0@, r.1@) == resolved_start(prev_events.deep_view(), room_id@, room_version_id@),
{
    (
        ResolvedSearch::Extremities {
            room_id: room_id.to_owned(),
            room_version: room_version_id.to_owned(),
            asked: prev_events.len(),
        },
        ResolvedRequest::Extremities { prev_events },
    )
}

/// The place of the extremity with the short state hash `hash`.
fn position_of(list: &Vec<(u64, PrevEvent)>, hash: u64) -> (r: Option<usize>)
    ensures
        r matches Some(i) ==> i < list.len() && list@[i as int].0 == hash,
        r is None ==> forall|i: int| 0 <= i < list.len() ==> (#[trigger] list@[i]).0 != hash,
{
    for i in 0..list.len()
        invariant
            forall|j: int| 0 <= j < i ==> (#[trigger] list@[j]).0 != hash,
    {
        if list[i].0 == hash {
            return Some(i);
        }
    }
    None
}

/// The extremities, one for each short state hash, if all of them were found.
fn collect_extremities(found: Vec<(Option<u64>, Option<PrevEvent>)>) -> (r: Option<
    Vec<(u64, PrevEvent)>,
>)
    ensures
        r is Some <==> all_found(found_of(found@)),
        r matches Some(list) ==> lists(extremities_of(list@), by_hash(found_of(found@))),
{
    let ghost all = found_of(found@);
    let mut list: Vec<(u64, PrevEvent)> = Vec::new();
    assert(lists(extremities_of(list@), by_hash(all.take(0))));
    for i in 0..found.len()
        invariant
            all == found_of(found@),
            forall|j: int| 0 <= j < i ==> #[trigger] all[j] is Some,
            lists(extremities_of(list@), by_hash(all.take(i as int))),
    {
        let ghost before = extremities_of(list@);
        let ghost map = by_hash(all.take(i as int));
        assert(all.take(i + 1).drop_last() =~= all.take(i as int));
        match (&found[i].0, &found[i].1) {
            (Some(hash), Some(event)) => {
                let event = event.clone();
                assert(all[i as int] == Some((*hash, event@)));
                match position_of(&list, *hash) {
                    Some(place) => {
                        list.set(place, (*hash, event));
                        proof {
                            assert(before[place as int].0 == *hash);
                            lists_update(before, map, place as int, *hash, event@);
                            assert(extremities_of(list@) =~= before.update(
                                place as int,
                                (*hash, event@),
                            ));
                        }
                    },
                    None => {
                        proof {
                            if map.contains_key(*hash) {
                                assert(has_first(before, *hash));
                                let k = choose|k: int|
                                    0 <= k < before.len() && (#[trigger] before[k]).0 == *hash;
                                assert(list@[k].0 == *hash);
                            }
                            lists_push(before, map, *hash, event@);
                        }
                        list.push((*hash, event));
                        assert(extremities_of(list@) =~= before.push((*hash, event@)));
                    },
                }
            },
            _ => {
                assert(all[i as int] is None);
                return None;
            },
        }
    }
    assert(all.take(all.len() as int) =~= all);
    Some(list)
}

/// The states and the auth chains of the forks, or the error of the first that failed.
fn unzip_forks(forks: Vec<Result<(StateMap, IdSet), Error>>) -> (r: Result<
    (Vec<StateMap>, Vec<IdSet>),
    Error,
>)
    ensures
        r is Ok <==> forall|i: int| 0 <= i < forks.len() ==> #[trigger] forks@[i] is Ok,
        r matches Ok((states, chains)) ==> {
            &&& states.len() == forks.len()
            &&& chains.len() == forks.len()
            &&& forall|i: int|
                0 <= i < forks.len() ==> fork_of(#[trigger] forks@[i])
                    == Ok::<ForkView, ErrorView>((states@[i]@, chains@[i]@))
        },
        r matches Err(error) ==> exists|place: int|
            0 <= place < forks.len() && fork_of(#[trigger] forks@[place])
                == Err::<ForkView, ErrorView>(error@) && forall|i: int|
                0 <= i < place ==> #[trigger] forks@[i] is Ok,
{
    let mut states: Vec<StateMap> = Vec::new();
    let mut chains: Vec<IdSet> = Vec::new();
    for fork in it: forks
        invariant
            it.seq() == forks@,
            states.len() == it.index(),
            chains.len() == it.index(),
            forall|i: int|
                0 <= i < it.index() ==> fork_of(#[trigger] forks@[i])
                    == Ok::<ForkView, ErrorView>((states@[i]@, chains@[i]@)),
            forall|i: int| 0 <= i < it.index() ==> #[trigger] forks@[i] is Ok,
    {
        assert(fork == forks@[it.index() as int]);
        match fork {
            Ok((state, chain)) => {
                states.push(state);
                chains.push(chain);
            },
            Err(error) => {
                return Err(error);
            },
        }
    }
    Ok((states, chains))
}

/// The keys of `state` and the events that set them, in one order.
fn list_state(state: &StateMap) -> (r: (Vec<(String, String)>, Vec<String>))
    ensures
        r.0.len() == r.1.len(),
        lists(paired(r.0.deep_view(), r.1.deep_view()), state@),
{
    let entries = state.entries();
    let mut keys: Vec<(String, String)> = Vec::new();
    let mut ids: Vec<String> = Vec::new();
    for i in 0..entries.len()
        invariant
            keys.len() == i,
            ids.len() == i,
            forall|j: int|
                0 <= j < i ==> (#[trigger] keys@[j]).deep_view() == entries@[j].key(),
            forall|j: int| 0 <= j < i ==> (#[trigger] ids@[j])@ == entries@[j].event_id@,
    {
        keys.push((entries[i].event_type.clone(), entries[i].state_key.clone()));
        ids.push(entries[i].event_id.clone());
    }
    proof {
        let list = paired(keys.deep_view(), ids.deep_view());
        assert forall|i: int| 0 <= i < list.len() implies (#[trigger] list[i]) == (
            entries@[i].key(),
            entries@[i].event_id@,
        ) by {
            assert(keys@[i].deep_view() == entries@[i].key());
            assert(ids@[i]@ == entries@[i].event_id@);
        }
        assert forall|k: StateKeyView| #[trigger] state@.contains_key(k) implies has_first(
            list,
            k,
        ) by {
            assert(state_of(entries@).contains_key(k));
            let i = choose|i: int| 0 <= i < entries@.len() && (#[trigger] entries@[i]).key() == k;
            assert(list[i].0 == k);
        }
        assert forall|i: int| 0 <= i < list.len() implies state@.contains_key((#[trigger] list[i]).0)
            && state@[list[i].0] == list[i].1 by {
            assert(entries@[i].key() == list[i].0);
            assert(state_of(entries@).contains_key(list[i].0));
        }
    }
    (keys, ids)
}

/// The pairs of `keys` and `ids` at the same place.
fn pair_up(keys: Vec<u64>, ids: &Vec<String>) -> (r: Vec<(u64, String)>)
    requires
        keys.len() == ids.len(),
    ensures
        r.deep_view() == paired(keys@, ids.deep_view()),
{
    let mut r: Vec<(u64, String)> = Vec::new();
    for i in 0..ids.len()
        invariant
            keys.len() == ids.len(),
            r.len() == i,
            forall|j: int|
                0 <= j < i ==> (#[trigger] r@[j]).0 == keys@[j] && r@[j].1@ == ids@[j]@,
    {
        r.push((keys[i], ids[i].clone()));
    }
    assert(r.deep_view() =~= paired(keys@, ids.deep_view()));
    r
}

impl ResolvedSearch {
    /// Goes on with a reply.
    pub fn step(self, reply: ResolvedReply) -> (r: (ResolvedSearch, ResolvedRequest))
        requires
            self@.awaits(reply@),
        ensures
            self@.goes_to(reply@, r.0@, r.1@),
    {
        match (self, reply) {
            (
                ResolvedSearch::Extremities { room_id, room_version, .. },
                ResolvedReply::Extremities(found),
            ) => match collect_extremities(found) {
                Some(extremities) => (
                    ResolvedSearch::Forks { room_version, asked: extremities.len() },
                    ResolvedRequest::Forks { room_id, extremities },
                ),
                None => (ResolvedSearch::Done, ResolvedRequest::Finish(Ok(None))),
            },
            (ResolvedSearch::Forks { room_version, .. }, ResolvedReply::Forks(forks)) => {
                let ghost views = forks_of(forks@);
                let ghost given = forks@;
                match unzip_forks(forks) {
                    Ok((fork_states, auth_chain_sets)) => {
                        proof {
                            assert forall|i: int| 0 <= i < views.len() implies #[trigger] views[i]
                                == Ok::<ForkView, ErrorView>(
                                (fork_states@[i]@, auth_chain_sets@[i]@),
                            ) by {
                                assert(views[i] == fork_of(given[i]));
                            }
                            assert(states_of(fork_states@) =~= views.map_values(
                                |fork: Result<ForkView, ErrorView>| fork->Ok_0.0,
                            ));
                            assert(sets_of(auth_chain_sets@) =~= views.map_values(
                                |fork: Result<ForkView, ErrorView>| fork->Ok_0.1,
                            ));
                        }
                        (
                            ResolvedSearch::Resolution,
                            ResolvedRequest::Resolution {
                                room_version,
                                fork_states,
                                auth_chain_sets,
                            },
                        )
                    },
                    Err(error) => {
                        proof {
                            let place = choose|place: int|
                                0 <= place < given.len() && fork_of(#[trigger] given[place])
                                    == Err::<ForkView, ErrorView>(error@) && forall|i: int|
                                    0 <= i < place ==> #[trigger] given[i] is Ok;
                            assert(views[place] == fork_of(given[place]));
                            assert(first_failure(views, place, error@));
                        }
                        (ResolvedSearch::Done, ResolvedRequest::Finish(Err(error)))
                    },
                }
            },
            (ResolvedSearch::Resolution, ResolvedReply::Resolution(state)) => match state {
                Some(state) => {
                    let (keys, event_ids) = list_state(&state);
                    (
                        ResolvedSearch::ShortStateKeys { event_ids },
                        ResolvedRequest::ShortStateKeys { keys },
                    )
                },
                None => (ResolvedSearch::Done, ResolvedRequest::Finish(Ok(None))),
            },
            (ResolvedSearch::ShortStateKeys { event_ids }, ResolvedReply::ShortStateKeys(keys)) => {
                let state = collect_state(pair_up(keys, &event_ids));
                (ResolvedSearch::Done, ResolvedRequest::Finish(Ok(Some(state))))
            },
            _ => unreached(),
        }
    }
}

/// The state stays unknown only where a previous event or its state is missing or the states are
/// not resolved, and the search fails only with the first fork that failed.
pub proof fn resolved_search_ends_early_for_a_reason(
    search: ResolvedSearchView,
    reply: ResolvedReplyView,
    next: ResolvedSearchView,
    request: ResolvedRequestView,
)
    requires
        search.awaits(reply),
        search.goes_to(reply, next, request),
    ensures
        request == ResolvedRequestView::Finish(StateOutcome::Unknown) <==> match reply {
            ResolvedReplyView::Extremities(found) => !all_found(found),
            ResolvedReplyView::Resolution(state) => state is None,
            _ => false,
        },
        request matches ResolvedRequestView::Finish(StateOutcome::Failed(error)) ==> {
            &&& reply is Forks
            &&& exists|place: int| #[trigger] first_failure(reply->Forks_0, place, error)
        },
{
}

/// Where no two pairs have the same first part, the state that they make up holds exactly them.
pub proof fn collected_holds_the_pairs(
    pairs: Seq<(u64, Seq<char>)>,
    shortstatekey: u64,
    id: Seq<char>,
)
    requires
        forall|i: int, j: int|
            0 <= i < j < pairs.len() ==> (#[trigger] pairs[i]).0 != (#[trigger] pairs[j]).0,
    ensures
        collected(pairs).contains_pair(shortstatekey, id) <==> pairs.contains((shortstatekey, id)),
    decreases pairs.len(),
{
    if pairs.len() > 0 {
        let fewer = pairs.drop_last();
        assert forall|i: int, j: int| 0 <= i < j < fewer.len() implies (#[trigger] fewer[i]).0 != (
        #[trigger] fewer[j]).0 by {
            assert(pairs[i].0 != pairs[j].0);
        }
        collected_holds_the_pairs(fewer, shortstatekey, id);
        let last = pairs.last();
        assert(pairs[pairs.len() - 1] == last);
        if pairs.contains((shortstatekey, id)) {
            let i = choose|i: int| 0 <= i < pairs.len() && pairs[i] == (shortstatekey, id);
            if i < fewer.len() {
                assert(fewer[i] == (shortstatekey, id));
                assert(pairs[i].0 != pairs[pairs.len() - 1].0);
            }
        }
        if fewer.contains((shortstatekey, id)) {
            let i = choose|i: int| 0 <= i < fewer.len() && fewer[i] == (shortstatekey, id);
            assert(pairs[i] == (shortstatekey, id));
        }
    }
}

/// Where the short state keys differ for different keys, the state that the search ends with is
/// the resolved state, key by key, whatever the order in which its keys were listed: the short
/// state key of each key stands for the event that sets the key, and nothing else is set.
pub proof fn resolved_state_is_kept_under_short_keys(
    state: Map<StateKeyView, Seq<char>>,
    keys: Seq<StateKeyView>,
    event_ids: Seq<Seq<char>>,
    names: Map<StateKeyView, u64>,
    shortstatekey: u64,
    id: Seq<char>,
)
    requires
        keys.len() == event_ids.len(),
        lists(paired(keys, event_ids), state),
        forall|a: StateKeyView, b: StateKeyView|
            state.contains_key(a) && state.contains_key(b) && #[trigger] names[a]
                == #[trigger] names[b] ==> a == b,
    ensures
        collected(
            paired(keys.map_values(|key: StateKeyView| names[key]), event_ids),
        ).contains_pair(shortstatekey, id) <==> exists|key: StateKeyView| #[trigger]
            state.contains_pair(key, id) && names[key] == shortstatekey,
{
    let listed = paired(keys, event_ids);
    let pairs = paired(keys.map_values(|key: StateKeyView| names[key]), event_ids);
    assert forall|i: int, j: int| 0 <= i < j < pairs.len() implies (#[trigger] pairs[i]).0 != (
    #[trigger] pairs[j]).0 by {
        assert(listed[i].0 != listed[j].0);
        assert(state.contains_key(listed[i].0) && state.contains_key(listed[j].0));
        assert(names[keys[i]] != names[keys[j]]);
    }
    collected_holds_the_pairs(pairs, shortstatekey, id);
    if pairs.contains((shortstatekey, id)) {
        let i = choose|i: int| 0 <= i < pairs.len() && pairs[i] == (shortstatekey, id);
        assert(state.contains_key(listed[i].0) && state[listed[i].0] == listed[i].1);
        assert(state.contains_pair(keys[i], id));
    }
    if exists|key: StateKeyView| #[trigger]
        state.contains_pair(key, id) && names[key] == shortstatekey {
        let key = choose|key: StateKeyView| #[trigger]
            state.contains_pair(key, id) && names[key] == shortstatekey;
        assert(has_first(listed, key));
        let i = choose|i: int| 0 <= i < listed.len() && (#[trigger] listed[i]).0 == key;
        assert(pairs[i] == (shortstatekey, id));
    }
}

/// The last of the extremities found with the short state hash `hash` has `event`.
pub open spec fn found_last(
    found: Seq<Option<(u64, PrevEventView)>>,
    hash: u64,
    event: PrevEventView,
) -> bool {
    exists|i: int|
        0 <= i < found.len() && #[trigger] found[i] == Some((hash, event)) && forall|j: int|
            i < j < found.len() && (#[trigger] found[j]) is Some ==> (found[j]->0).0 != hash
}

/// Where every previous event and its state were found, the state after each is asked for once: for
/// each short state hash that was found, with the last event found under it, in the room of the
/// search. Where one is missing, the state is unknown.
pub proof fn every_extremity_becomes_a_fork(
    room_id: Seq<char>,
    room_version: Seq<char>,
    asked: int,
    found: Seq<Option<(u64, PrevEventView)>>,
    next: ResolvedSearchView,
    request: ResolvedRequestView,
)
    requires
        (ResolvedSearchView::Extremities { room_id, room_version, asked }).goes_to(
            ResolvedReplyView::Extremities(found),
            next,
            request,
        ),
    ensures
        found.contains(None) ==> request == ResolvedRequestView::Finish(StateOutcome::Unknown),
        !found.contains(None) ==> {
            &&& request is Forks
            &&& request->Forks_room_id == room_id
            &&& forall|i: int, j: int|
                0 <= i < j < request->extremities.len() ==> (#[trigger] request->extremities[i]).0
                    != (#[trigger] request->extremities[j]).0
            &&& forall|i: int|
                0 <= i < request->extremities.len() ==> found_last(
                    found,
                    (#[trigger] request->extremities[i]).0,
                    request->extremities[i].1,
                )
            &&& forall|k: int|
                0 <= k < found.len() ==> exists|i: int|
                    0 <= i < request->extremities.len() && (#[trigger] request->extremities[i]).0
                        == ((#[trigger] found[k])->0).0
        },
{
    if !found.contains(None) {
        assert forall|i: int| 0 <= i < found.len() implies #[trigger] found[i] is Some by {
            if found[i] is None {
                assert(found.contains(None));
            }
        }
        let list = request->extremities;
        assert forall|i: int| 0 <= i < list.len() implies found_last(
            found,
            (#[trigger] list[i]).0,
            list[i].1,
        ) by {
            by_hash_holds_the_last_found(found, list[i].0, list[i].1);
        }
        assert forall|k: int| 0 <= k < found.len() implies exists|i: int|
            0 <= i < list.len() && (#[trigger] list[i]).0 == ((#[trigger] found[k])->0).0 by {
            by_hash_holds_what_was_found(found, (found[k]->0).0);
            assert(has_first(list, (found[k]->0).0));
        }
    }
}

/// Under each short state hash stands the last event found with it.
proof fn by_hash_holds_the_last_found(
    found: Seq<Option<(u64, PrevEventView)>>,
    hash: u64,
    event: PrevEventView,
)
    requires
        all_found(found),
        by_hash(found).contains_pair(hash, event),
    ensures
        found_last(found, hash, event),
    decreases found.len(),
{
    if found.len() > 0 {
        let fewer = found.drop_last();
        let last = found[found.len() - 1];
        assert(last is Some);
        assert forall|i: int| 0 <= i < fewer.len() implies #[trigger] fewer[i] is Some by {
            assert(fewer[i] == found[i]);
        }
        if (last->0).0 != hash {
            by_hash_holds_the_last_found(fewer, hash, event);
            let i = choose|i: int|
                0 <= i < fewer.len() && #[trigger] fewer[i] == Some((hash, event)) && forall|j: int|
                    i < j < fewer.len() && (#[trigger] fewer[j]) is Some ==> (fewer[j]->0).0 != hash;
            assert(found[i] == Some((hash, event)));
            assert forall|j: int|
                i < j < found.len() && (#[trigger] found[j]) is Some implies (found[j]->0).0
                != hash by {
                if j < fewer.len() {
                    assert(fewer[j] == found[j]);
                }
            }
        } else {
            assert(last == Some((hash, event)));
        }
    }
}

/// Where every fork was had, the resolution is asked for by the rules of the room version of the
/// search, with as many states and auth chains as there are forks: at each place the state and the
/// auth chain with which that fork came back. Where a fork failed, the search fails with the error
/// of the first that did.
pub proof fn every_fork_is_resolved_with_its_own_chain(
    room_id: Seq<char>,
    room_version: Seq<char>,
    asked: int,
    found: Seq<Option<(u64, PrevEventView)>>,
    forking: ResolvedSearchView,
    forks_request: ResolvedRequestView,
    forks: Seq<Result<ForkView, ErrorView>>,
    next: ResolvedSearchView,
    request: ResolvedRequestView,
)
    requires
        !found.contains(None),
        (ResolvedSearchView::Extremities { room_id, room_version, asked }).goes_to(
            ResolvedReplyView::Extremities(found),
            forking,
            forks_request,
        ),
        forking.awaits(ResolvedReplyView::Forks(forks)),
        forking.goes_to(ResolvedReplyView::Forks(forks), next, request),
    ensures
        (forall|i: int| 0 <= i < forks.len() ==> #[trigger] forks[i] is Ok) ==> {
            &&& forks_request is Forks
            &&& forks.len() == forks_request->extremities.len()
            &&& request is Resolution
            &&& request->Resolution_room_version == room_version
            &&& request->fork_states.len() == forks.len()
            &&& request->auth_chain_sets.len() == forks.len()
            &&& forall|i: int|
                #![trigger forks[i]]
                #![trigger request->fork_states[i]]
                #![trigger request->auth_chain_sets[i]]
                0 <= i < forks.len() ==> forks[i] == Ok::<ForkView, ErrorView>(
                    (request->fork_states[i], request->auth_chain_sets[i]),
                )
        },
        forall|place: int|
            0 <= place < forks.len() && (#[trigger] forks[place]) is Err && (forall|i: int|
                0 <= i < place ==> #[trigger] forks[i] is Ok) ==> request
                == ResolvedRequestView::Finish(StateOutcome::Failed(forks[place]->Err_0)),
{
    every_extremity_becomes_a_fork(room_id, room_version, asked, found, forking, forks_request);
    assert forall|i: int| 0 <= i < found.len() implies #[trigger] found[i] is Some by {
        if found[i] is None {
            assert(found.contains(None));
        }
    }
    assert forall|place: int|
        0 <= place < forks.len() && (#[trigger] forks[place]) is Err && (forall|i: int|
            0 <= i < place ==> #[trigger] forks[i] is Ok) implies request
        == ResolvedRequestView::Finish(StateOutcome::Failed(forks[place]->Err_0)) by {
        let (other, error) = choose|other: int, error: ErrorView| #[trigger]
            first_failure(forks, other, error) && request == ResolvedRequestView::Finish(
                StateOutcome::Failed(error),
            );
        if other < place {
            assert(forks[other] is Ok);
        } else if place < other {
            assert(forks[place] is Ok);
        }
    }
}

/// Once the states are resolved, the short state key of every key of the resolved state is asked for,
/// each once; and the state that the search finishes with has a short state key if and only if it
/// came back, set to the event of a key for which it came back. Where the states are not resolved,
/// the state is unknown.
pub proof fn resolved_state_is_kept_whole(
    resolved: Option<Map<StateKeyView, Seq<char>>>,
    keying: ResolvedSearchView,
    keys_request: ResolvedRequestView,
    shorts: Seq<u64>,
    next: ResolvedSearchView,
    request: ResolvedRequestView,
    short: u64,
    id: Seq<char>,
)
    requires
        ResolvedSearchView::Resolution.goes_to(
            ResolvedReplyView::Resolution(resolved),
            keying,
            keys_request,
        ),
        keys_request is ShortStateKeys ==> {
            &&& shorts.len() == keys_request->keys.len()
            &&& keying.goes_to(ResolvedReplyView::ShortStateKeys(shorts), next, request)
        },
    ensures
        resolved is None ==> keys_request == ResolvedRequestView::Finish(StateOutcome::Unknown),
        resolved matches Some(resolved) ==> {
            &&& keys_request is ShortStateKeys
            &&& {
                let keys = keys_request->keys;
                &&& keys.no_duplicates()
                &&& keys.to_set() == resolved.dom()
                &&& request matches ResolvedRequestView::Finish(StateOutcome::Known(state))
                &&& state.contains_key(short) <==> shorts.contains(short)
                &&& state.contains_pair(short, id) ==> exists|i: int|
                    0 <= i < keys.len() && shorts[i] == short && resolved[#[trigger] keys[i]] == id
                &&& shorts.no_duplicates() ==> (state.contains_pair(short, id) <==> exists|i: int|
                    0 <= i < keys.len() && shorts[i] == short && resolved[#[trigger] keys[i]] == id)
            }
        },
{
    if resolved is Some {
        let resolved = resolved->0;
        let keys = keys_request->keys;
        let ids = keying->event_ids;
        let listed = paired(keys, ids);
        let pairs = paired(shorts, ids);
        assert forall|i: int, j: int| 0 <= i < j < keys.len() implies keys[i] != keys[j] by {
            assert(listed[i].0 != listed[j].0);
        }
        assert forall|key: StateKeyView| keys.to_set().contains(key) <==> resolved.dom().contains(
            key,
        ) by {
            if keys.to_set().contains(key) {
                let i = choose|i: int| 0 <= i < keys.len() && keys[i] == key;
                assert(resolved.contains_key(listed[i].0));
            }
            if resolved.contains_key(key) {
                assert(has_first(listed, key));
                let i = choose|i: int| 0 <= i < listed.len() && (#[trigger] listed[i]).0 == key;
                assert(keys[i] == key);
            }
        }
        assert(keys.to_set() =~= resolved.dom());
        assert forall|i: int| 0 <= i < keys.len() implies resolved[#[trigger] keys[i]] == ids[i] by {
            assert(resolved[listed[i].0] == listed[i].1);
        }
        let state = collected(pairs);
        collected_holds_the_last_pairs(pairs, short, id);
        if state.contains_key(short) {
            collected_holds_the_last_pairs(pairs, short, state[short]);
            assert(state.contains_pair(short, state[short]));
            let i = choose|i: int|
                0 <= i < pairs.len() && #[trigger] pairs[i] == (short, state[short]) && forall|j: int|
                    i < j < pairs.len() ==> (#[trigger] pairs[j]).0 != short;
            assert(shorts[i] == short);
        }
        if shorts.contains(short) {
            collected_has_every_key(pairs, short);
            let k = choose|k: int| 0 <= k < shorts.len() && shorts[k] == short;
            assert(pairs[k].0 == short);
        }
        if state.contains_pair(short, id) {
            let i = choose|i: int|
                0 <= i < pairs.len() && #[trigger] pairs[i] == (short, id) && forall|j: int|
                    i < j < pairs.len() ==> (#[trigger] pairs[j]).0 != short;
            assert(shorts[i] == short && resolved[keys[i]] == id);
        }
        if shorts.no_duplicates() && exists|i: int|
            0 <= i < keys.len() && shorts[i] == short && resolved[#[trigger] keys[i]] == id {
            let i = choose|i: int|
                0 <= i < keys.len() && shorts[i] == short && resolved[#[trigger] keys[i]] == id;
            assert(pairs[i] == (short, id));
            assert forall|j: int| i < j < pairs.len() implies (#[trigger] pairs[j]).0 != short by {
                assert(shorts[j] != shorts[i]);
            }
            assert(last_under(pairs, short, id));
        }
    }
}

/// The state that pairs make up has every short state key of theirs.
proof fn collected_has_every_key(pairs: Seq<(u64, Seq<char>)>, short: u64)
    ensures
        (exists|i: int| 0 <= i < pairs.len() && (#[trigger] pairs[i]).0 == short) ==> collected(
            pairs,
        ).contains_key(short),
    decreases pairs.len(),
{
    if pairs.len() > 0 {
        let fewer = pairs.drop_last();
        collected_has_every_key(fewer, short);
        if exists|i: int| 0 <= i < pairs.len() && (#[trigger] pairs[i]).0 == short {
            let i = choose|i: int| 0 <= i < pairs.len() && (#[trigger] pairs[i]).0 == short;
            if i < fewer.len() {
                assert(fewer[i].0 == short);
            }
        }
    }
}

/// An extremity is found where both its short state hash and its event are, and a fork says its own
/// state and auth chain, or its own error.
pub proof fn replies_say_what_came_back(
    found: Seq<(Option<u64>, Option<PrevEvent>)>,
    forks: Seq<Result<(StateMap, IdSet), Error>>,
    i: int,
)
    ensures
        found_of(found).len() == found.len(),
        0 <= i < found.len() ==> found_of(found)[i] == match found[i] {
            (Some(hash), Some(event)) => Some((hash, event@)),
            (Some(_), None) => None,
            (None, _) => None,
        },
        forks_of(forks).len() == forks.len(),
        0 <= i < forks.len() ==> match forks[i] {
            Ok((state, chain)) => forks_of(forks)[i] == Ok::<ForkView, ErrorView>((state@, chain@)),
            Err(error) => forks_of(forks)[i] == Err::<ForkView, ErrorView>(error@),
        },
{
}

} // verus!
