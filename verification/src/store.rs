//! A store of events, and the chains of events that authorise one another.

use vstd::prelude::*;

use crate::collections::append_texts;
use crate::collections::clone_texts;
use crate::collections::id_map_is_finite;
use crate::collections::IdMap;
use crate::collections::IdSet;
use crate::error::Error;
use crate::error::ErrorView;
use crate::event::Pdu;
use crate::event::PduView;

verus! {

/// The events of a store by their ids.
pub type EventsView = Map<Seq<char>, PduView>;

/// Each event of `path` but the first authorises the one before it.
pub open spec fn is_auth_path(events: EventsView, path: Seq<Seq<char>>) -> bool {
    forall|i: int|
        0 <= i < path.len() - 1 ==> events.contains_key(#[trigger] path[i])
            && events[path[i]].auth_events.contains(path[i + 1])
}

/// `id` is reached from one of `starts` by stepping from an event to one that authorises it.
pub open spec fn is_in_auth_chain(events: EventsView, starts: Set<Seq<char>>, id: Seq<char>) -> bool {
    exists|path: Seq<Seq<char>>| #[trigger] is_auth_path_to(events, starts, path, id)
}

/// `path` leads from one of `starts` to `id`.
pub open spec fn is_auth_path_to(
    events: EventsView,
    starts: Set<Seq<char>>,
    path: Seq<Seq<char>>,
    id: Seq<char>,
) -> bool {
    &&& path.len() > 0
    &&& starts.contains(path[0])
    &&& path.last() == id
    &&& is_auth_path(events, path)
}

/// The auth chain of `starts`: they and all events that authorise them, however remotely.
pub open spec fn auth_chain(events: EventsView, starts: Set<Seq<char>>) -> Set<Seq<char>> {
    Set::new(|id: Seq<char>| is_in_auth_chain(events, starts, id))
}

/// The first event that a depth-first walk of the auth events misses, where `stack` is still to
/// be walked, its last event first, and `seen` has been walked.
pub open spec fn first_missing(
    events: EventsView,
    stack: Seq<Seq<char>>,
    seen: Set<Seq<char>>,
) -> Option<Seq<char>>
    decreases events.dom().difference(seen).len(), stack.len(),
    when events.dom().finite()
    via first_missing_terminates
{
    if stack.len() == 0 {
        None
    } else if seen.contains(stack.last()) {
        first_missing(events, stack.drop_last(), seen)
    } else if !events.contains_key(stack.last()) {
        Some(stack.last())
    } else {
        first_missing(
            events,
            stack.drop_last() + events[stack.last()].auth_events,
            seen.insert(stack.last()),
        )
    }
}

#[via_fn]
proof fn first_missing_terminates(
    events: EventsView,
    stack: Seq<Seq<char>>,
    seen: Set<Seq<char>>,
) {
    if stack.len() > 0 && !seen.contains(stack.last()) && events.contains_key(stack.last()) {
        walking_shrinks_the_rest(events, seen, stack.last());
    }
}

/// Walking one more event of the store leaves one fewer to walk.
proof fn walking_shrinks_the_rest(events: EventsView, seen: Set<Seq<char>>, id: Seq<char>)
    requires
        events.dom().finite(),
        events.contains_key(id),
        !seen.contains(id),
    ensures
        events.dom().difference(seen.insert(id)).len() < events.dom().difference(seen).len(),
{
    assert(events.dom().difference(seen.insert(id)) =~= events.dom().difference(seen).remove(id));
}

/// A set that holds `starts` and, of each of its members, the auth events, holds the auth chain of
/// `starts`.
proof fn closed_set_holds_chain(
    events: EventsView,
    starts: Set<Seq<char>>,
    closed: Set<Seq<char>>,
    path: Seq<Seq<char>>,
    id: Seq<char>,
)
    requires
        starts.subset_of(closed),
        forall|a: Seq<char>, b: Seq<char>|
            closed.contains(a) && events.contains_key(a) && events[a].auth_events.contains(b)
                ==> closed.contains(b),
        is_auth_path_to(events, starts, path, id),
    ensures
        closed.contains(id),
    decreases path.len(),
{
    if path.len() > 1 {
        let shorter = path.drop_last();
        let before = shorter.last();
        assert(is_auth_path_to(events, starts, shorter, before)) by {
            assert forall|i: int| 0 <= i < shorter.len() - 1 implies events.contains_key(
                #[trigger] shorter[i],
            ) && events[shorter[i]].auth_events.contains(shorter[i + 1]) by {
                assert(path[i] == shorter[i]);
            }
        }
        closed_set_holds_chain(events, starts, closed, shorter, before);
        assert(path[path.len() - 2] == before);
    }
}

/// The auth events of an event of an auth chain are in the chain.
pub proof fn auth_chain_is_closed(
    events: EventsView,
    starts: Set<Seq<char>>,
    id: Seq<char>,
    auth: Seq<char>,
)
    requires
        auth_chain(events, starts).contains(id),
        events.contains_key(id),
        events[id].auth_events.contains(auth),
    ensures
        auth_chain(events, starts).contains(auth),
{
    let path = choose|path: Seq<Seq<char>>| #[trigger] is_auth_path_to(events, starts, path, id);
    let longer = path.push(auth);
    assert forall|i: int| 0 <= i < longer.len() - 1 implies events.contains_key(#[trigger] longer[i])
        && events[longer[i]].auth_events.contains(longer[i + 1]) by {
        if i < path.len() - 1 {
            assert(longer[i] == path[i]);
        }
    }
    assert(is_auth_path_to(events, starts, longer, auth));
}

/// An event is in its own auth chain.
pub proof fn auth_chain_holds_starts(events: EventsView, starts: Set<Seq<char>>, id: Seq<char>)
    requires
        starts.contains(id),
    ensures
        auth_chain(events, starts).contains(id),
{
    assert(is_auth_path_to(events, starts, seq![id], id));
}

/// A store is complete: it holds the auth events of all its events.
pub open spec fn is_complete(events: EventsView) -> bool {
    forall|id: Seq<char>, auth: Seq<char>|
        events.contains_key(id) && #[trigger] events[id].auth_events.contains(auth)
            ==> events.contains_key(auth)
}

/// A complete store holds the auth chain of any of its events.
pub proof fn complete_store_holds_chains(events: EventsView, starts: Set<Seq<char>>)
    requires
        is_complete(events),
        starts.subset_of(events.dom()),
    ensures
        auth_chain(events, starts).subset_of(events.dom()),
{
    assert forall|id: Seq<char>| #[trigger]
        auth_chain(events, starts).contains(id) implies events.dom().contains(id) by {
        let path = choose|path: Seq<Seq<char>>| #[trigger]
            is_auth_path_to(events, starts, path, id);
        closed_set_holds_chain(events, starts, events.dom(), path, id);
    }
}

/// More events have a larger auth chain.
pub proof fn auth_chain_is_monotone(events: EventsView, fewer: Set<Seq<char>>, more: Set<Seq<char>>)
    requires
        fewer.subset_of(more),
    ensures
        auth_chain(events, fewer).subset_of(auth_chain(events, more)),
{
    assert forall|id: Seq<char>| #[trigger]
        auth_chain(events, fewer).contains(id) implies auth_chain(events, more).contains(id) by {
        let path = choose|path: Seq<Seq<char>>| #[trigger] is_auth_path_to(events, fewer, path, id);
        assert(is_auth_path_to(events, more, path, id));
    }
}

/// The auth chain of all of two sets of events is that of the one and that of the other.
pub proof fn auth_chain_of_union(events: EventsView, a: Set<Seq<char>>, b: Set<Seq<char>>)
    ensures
        auth_chain(events, a.union(b)) == auth_chain(events, a).union(auth_chain(events, b)),
{
    auth_chain_is_monotone(events, a, a.union(b));
    auth_chain_is_monotone(events, b, a.union(b));
    let both = auth_chain(events, a).union(auth_chain(events, b));
    assert forall|id: Seq<char>| #[trigger]
        auth_chain(events, a.union(b)).contains(id) implies both.contains(id) by {
        let path = choose|path: Seq<Seq<char>>| #[trigger]
            is_auth_path_to(events, a.union(b), path, id);
        if a.contains(path[0]) {
            assert(is_auth_path_to(events, a, path, id));
        } else {
            assert(is_auth_path_to(events, b, path, id));
        }
    }
    assert(auth_chain(events, a.union(b)) =~= both);
}

/// An auth chain is its own auth chain.
pub proof fn auth_chain_is_idempotent(events: EventsView, starts: Set<Seq<char>>)
    ensures
        auth_chain(events, auth_chain(events, starts)) == auth_chain(events, starts),
{
    let chain = auth_chain(events, starts);
    assert forall|id: Seq<char>| #[trigger] chain.contains(id) implies auth_chain(
        events,
        chain,
    ).contains(id) by {
        auth_chain_holds_starts(events, chain, id);
    }
    assert forall|a: Seq<char>, b: Seq<char>|
        chain.contains(a) && events.contains_key(a) && events[a].auth_events.contains(
            b,
        ) implies chain.contains(b) by {
        auth_chain_is_closed(events, starts, a, b);
    }
    assert forall|id: Seq<char>| #[trigger]
        auth_chain(events, chain).contains(id) implies chain.contains(id) by {
        let path = choose|path: Seq<Seq<char>>| #[trigger] is_auth_path_to(events, chain, path, id);
        closed_set_holds_chain(events, chain, chain, path, id);
    }
    assert(auth_chain(events, chain) =~= chain);
}

/// The auth chain of each of `lists`.
pub open spec fn auth_chains(events: EventsView, lists: Seq<Seq<Seq<char>>>) -> Seq<Set<Seq<char>>> {
    lists.map_values(|ids: Seq<Seq<char>>| auth_chain(events, ids.to_set()))
}

/// All of `chains` hold `id`.
pub open spec fn all_hold(chains: Seq<Set<Seq<char>>>, id: Seq<char>) -> bool {
    forall|i: int| 0 <= i < chains.len() ==> (#[trigger] chains[i]).contains(id)
}

/// How many of `chains` hold `id`.
pub open spec fn holders(chains: Seq<Set<Seq<char>>>, id: Seq<char>) -> nat
    decreases chains.len(),
{
    if chains.len() == 0 {
        0
    } else {
        holders(chains.drop_last(), id) + if chains.last().contains(id) {
            1nat
        } else {
            0nat
        }
    }
}

/// How often `id` stands in the difference of `chains`: once for each chain that holds it, but not
/// at all where all of them do.
pub open spec fn times_in_difference(chains: Seq<Set<Seq<char>>>, id: Seq<char>) -> nat {
    if all_hold(chains, id) {
        0
    } else {
        holders(chains, id)
    }
}

/// `ids` are `parts` one after the other, one part for each of `chains` in the same order: what that
/// chain holds and not all of them do, each id once.
pub open spec fn splits_by_chain(
    ids: Seq<Seq<char>>,
    parts: Seq<Seq<Seq<char>>>,
    chains: Seq<Set<Seq<char>>>,
) -> bool {
    &&& parts.len() == chains.len()
    &&& ids == parts.flatten()
    &&& forall|i: int| 0 <= i < parts.len() ==> is_part_of(#[trigger] parts[i], chains, i)
}

/// `part` holds what the chain at `place` holds and not all of `chains` do, each id once.
pub open spec fn is_part_of(
    part: Seq<Seq<char>>,
    chains: Seq<Set<Seq<char>>>,
    place: int,
) -> bool {
    &&& part.no_duplicates()
    &&& forall|id: Seq<char>| #[trigger]
        part.contains(id) <==> chains[place].contains(id) && !all_hold(chains, id)
}

/// Some of `chains` holds `id`.
pub open spec fn some_holds(chains: Seq<Set<Seq<char>>>, id: Seq<char>) -> bool {
    exists|i: int| 0 <= i < chains.len() && (#[trigger] chains[i]).contains(id)
}

/// A chain holds an event where at least one holds it, and not more do than there are.
proof fn holders_are_among_chains(chains: Seq<Set<Seq<char>>>, id: Seq<char>)
    ensures
        holders(chains, id) <= chains.len(),
        holders(chains, id) > 0 <==> some_holds(chains, id),
        holders(chains, id) == chains.len() <==> all_hold(chains, id),
    decreases chains.len(),
{
    if chains.len() > 0 {
        let fewer = chains.drop_last();
        holders_are_among_chains(fewer, id);
        assert(chains.last() == chains[chains.len() - 1]);
        assert forall|i: int| 0 <= i < fewer.len() implies fewer[i] == #[trigger] chains[i] by {}
        if some_holds(fewer, id) {
            let i = choose|i: int| 0 <= i < fewer.len() && (#[trigger] fewer[i]).contains(id);
            assert(chains[i].contains(id));
        }
        if some_holds(chains, id) && !chains.last().contains(id) {
            let i = choose|i: int| 0 <= i < chains.len() && (#[trigger] chains[i]).contains(id);
            assert(fewer[i].contains(id));
        }
        if all_hold(chains, id) {
            assert forall|i: int| 0 <= i < fewer.len() implies (#[trigger] fewer[i]).contains(id) by {
                assert(chains[i].contains(id));
            }
        }
        if all_hold(fewer, id) && chains.last().contains(id) {
            assert forall|i: int| 0 <= i < chains.len() implies (#[trigger] chains[i]).contains(id) by {
                if i < fewer.len() {
                    assert(fewer[i].contains(id));
                }
            }
        }
    }
}

/// The difference of auth chains holds what some of them hold and not all, and nothing as often as
/// there are chains.
pub proof fn difference_holds_what_some_but_not_all_hold(
    chains: Seq<Set<Seq<char>>>,
    id: Seq<char>,
)
    ensures
        times_in_difference(chains, id) > 0 <==> some_holds(chains, id) && !all_hold(chains, id),
        chains.len() > 0 ==> times_in_difference(chains, id) < chains.len(),
{
    holders_are_among_chains(chains, id);
}

/// An auth chain does not differ from itself, however often it is given.
pub proof fn equal_chains_have_no_difference(chains: Seq<Set<Seq<char>>>, id: Seq<char>)
    requires
        forall|i: int, j: int|
            0 <= i < chains.len() && 0 <= j < chains.len() ==> #[trigger] chains[i]
                == #[trigger] chains[j],
    ensures
        times_in_difference(chains, id) == 0,
{
    holders_are_among_chains(chains, id);
    if some_holds(chains, id) {
        let i = choose|i: int| 0 <= i < chains.len() && (#[trigger] chains[i]).contains(id);
        assert forall|j: int| 0 <= j < chains.len() implies (#[trigger] chains[j]).contains(id) by {
            assert(chains[i] == chains[j]);
        }
    }
}

/// Whether two auth chains differ at an event does not depend on their order: it stands in the
/// difference once where exactly one of them holds it.
pub proof fn difference_of_two_is_symmetric(a: Set<Seq<char>>, b: Set<Seq<char>>, id: Seq<char>)
    ensures
        times_in_difference(seq![a, b], id) == times_in_difference(seq![b, a], id),
        times_in_difference(seq![a, b], id) == if a.contains(id) != b.contains(id) {
            1nat
        } else {
            0nat
        },
{
    let ab = seq![a, b];
    let ba = seq![b, a];
    assert(ab.drop_last() =~= seq![a]);
    assert(ba.drop_last() =~= seq![b]);
    assert(seq![a].drop_last() =~= seq![]);
    assert(seq![b].drop_last() =~= seq![]);
    reveal_with_fuel(holders, 3);
    assert(ab[0] == a && ab[1] == b && ba[0] == b && ba[1] == a);
}

/// The message of the error about a missing event.
pub open spec fn missing_message(id: Seq<char>) -> Seq<char> {
    id + " not found"@
}

/// `error` says that the event `id` is missing.
pub open spec fn says_missing(error: Error, id: Seq<char>) -> bool {
    error@ == ErrorView::NotFound(missing_message(id))
}

/// A store of events by their ids.
pub struct TestStore {
    pub events: IdMap<Pdu>,
}

impl View for TestStore {
    type V = EventsView;

    open spec fn view(&self) -> EventsView {
        self.events@.map_values(|event: Pdu| event@)
    }
}

impl TestStore {
    /// The event `event_id`, where there is one.
    pub fn fetch(&self, event_id: &str) -> (r: Option<Pdu>)
        ensures
            r is Some <==> self@.contains_key(event_id@),
            r matches Some(event) ==> event@ == self@[event_id@],
    {
        match self.events.get(event_id) {
            Some(event) => Some(event.clone()),
            None => None,
        }
    }

    /// Whether there is an event `event_id`.
    pub fn has_event(&self, event_id: &str) -> (r: bool)
        ensures
            r == self@.contains_key(event_id@),
    {
        self.events.get(event_id).is_some()
    }

    /// The event `event_id`; the room plays no part.
    pub fn get_event(&self, room_id: &str, event_id: &str) -> (r: Result<Pdu, Error>)
        ensures
            r is Ok <==> self@.contains_key(event_id@),
            r matches Ok(event) ==> event@ == self@[event_id@],
            r matches Err(error) ==> says_missing(error, event_id@),
    {
        match self.events.get(event_id) {
            Some(event) => Ok(event.clone()),
            None => {
                let mut message = event_id.to_owned();
                message.append(" not found");
                Err(Error::NotFound(message))
            },
        }
    }

    /// The events `event_ids`, in the same order; an error names the first that is missing.
    pub fn get_events(&self, room_id: &str, event_ids: &Vec<String>) -> (r: Result<Vec<Pdu>, Error>)
        ensures
            r is Ok <==> forall|i: int|
                0 <= i < event_ids.len() ==> self@.contains_key(#[trigger] event_ids.deep_view()[i]),
            r matches Ok(events) ==> events.len() == event_ids.len() && forall|i: int|
                0 <= i < events.len() ==> (#[trigger] events@[i])@
                    == self@[event_ids.deep_view()[i]],
            r matches Err(error) ==> exists|i: int|
                #![trigger event_ids.deep_view()[i]]
                0 <= i < event_ids.len() && !self@.contains_key(event_ids.deep_view()[i])
                    && says_missing(error, event_ids.deep_view()[i]) && forall|j: int|
                    0 <= j < i ==> self@.contains_key(#[trigger] event_ids.deep_view()[j]),
    {
        let mut events: Vec<Pdu> = Vec::new();
        for i in 0..event_ids.len()
            invariant
                events.len() == i,
                forall|j: int|
                    0 <= j < i ==> self@.contains_key(#[trigger] event_ids.deep_view()[j]),
                forall|j: int|
                    0 <= j < i ==> (#[trigger] events@[j])@ == self@[event_ids.deep_view()[j]],
        {
            assert(event_ids.deep_view()[i as int] == event_ids@[i as int]@);
            match self.get_event(room_id, &event_ids[i]) {
                Ok(event) => {
                    events.push(event);
                },
                Err(error) => {
                    return Err(error);
                },
            }
        }
        Ok(events)
    }

    /// The auth chain of `event_ids`, they among it. Where an event of the chain is missing, an
    /// error names the one that a depth-first walk from the last of `event_ids` misses first.
    pub fn auth_event_ids(&self, room_id: &str, event_ids: Vec<String>) -> (r: Result<IdSet, Error>)
        ensures
            r is Ok <==> auth_chain(self@, event_ids.deep_view().to_set()).subset_of(self@.dom()),
            r matches Ok(chain) ==> {
                &&& chain@ == auth_chain(self@, event_ids.deep_view().to_set())
                &&& first_missing(self@, event_ids.deep_view(), Set::empty()) is None
            },
            r matches Err(error) ==> {
                &&& first_missing(self@, event_ids.deep_view(), Set::empty()) is Some
                &&& says_missing(
                    error,
                    first_missing(self@, event_ids.deep_view(), Set::empty())->0,
                )
                &&& auth_chain(self@, event_ids.deep_view().to_set()).contains(
                    first_missing(self@, event_ids.deep_view(), Set::empty())->0,
                )
                &&& !self@.contains_key(
                    first_missing(self@, event_ids.deep_view(), Set::empty())->0,
                )
            },
    {
        let ghost start_seq = event_ids.deep_view();
        let ghost starts = start_seq.to_set();
        let ghost events = self@;
        proof {
            id_map_is_finite(self.events);
            assert(events.dom() =~= self.events@.dom());
            assert forall|id: Seq<char>| start_seq.contains(id) implies #[trigger] auth_chain(
                events,
                starts,
            ).contains(id) by {
                auth_chain_holds_starts(events, starts, id);
            }
        }
        let mut result = IdSet::new();
        let mut stack = event_ids;
        while stack.len() > 0
            invariant
                events == self@,
                events.dom().finite(),
                start_seq == event_ids.deep_view(),
                starts == start_seq.to_set(),
                result@.subset_of(events.dom()),
                result@.subset_of(auth_chain(events, starts)),
                stack.deep_view().to_set().subset_of(auth_chain(events, starts)),
                forall|id: Seq<char>| #[trigger]
                    starts.contains(id) ==> result@.contains(id) || stack.deep_view().contains(id),
                forall|a: Seq<char>, b: Seq<char>|
                    result@.contains(a) && #[trigger] events[a].auth_events.contains(b)
                        ==> result@.contains(b) || stack.deep_view().contains(b),
                first_missing(events, start_seq, Set::empty()) == first_missing(
                    events,
                    stack.deep_view(),
                    result@,
                ),
            decreases events.dom().difference(result@).len(), stack.len(),
        {
            let ghost stack_before = stack.deep_view();
            let ghost seen_before = result@;
            let ev_id = stack.pop().unwrap();
            let ghost id = ev_id@;
            proof {
                assert(stack.deep_view() =~= stack_before.drop_last());
                assert(stack_before.last() == id);
                assert(stack_before =~= stack.deep_view().push(id));
                stack.deep_view().lemma_push_to_set_commute(id);
                assert(stack_before.to_set().contains(id));
                assert forall|other: Seq<char>| #[trigger] stack_before.contains(other) implies other
                    == id || stack.deep_view().contains(other) by {
                    assert(stack_before.to_set().contains(other));
                }
            }
            if result.contains(&ev_id) {
                continue;
            }
            result.insert(ev_id.clone());
            match self.get_event(room_id, &ev_id) {
                Ok(event) => {
                    append_texts(&mut stack, &event.auth_events);
                    proof {
                        walking_shrinks_the_rest(events, seen_before, id);
                        let auth = events[id].auth_events;
                        assert forall|other: Seq<char>| #[trigger]
                            stack.deep_view().contains(other) <==> stack_before.drop_last().contains(
                                other,
                            ) || auth.contains(other) by {
                            vstd::seq_lib::lemma_seq_concat_contains_all_elements(
                                stack_before.drop_last(),
                                auth,
                                other,
                            );
                        }
                        assert forall|other: Seq<char>| #[trigger]
                            stack.deep_view().contains(other) implies auth_chain(
                            events,
                            starts,
                        ).contains(other) by {
                            if auth.contains(other) {
                                auth_chain_is_closed(events, starts, id, other);
                            } else {
                                assert(stack_before.drop_last().to_set().contains(other));
                            }
                        }
                    }
                },
                Err(error) => {
                    proof {
                        assert(auth_chain(events, starts).contains(id));
                    }
                    return Err(error);
                },
            }
        }
        proof {
            assert forall|id: Seq<char>| #[trigger]
                auth_chain(events, starts).contains(id) implies result@.contains(id) by {
                let path = choose|path: Seq<Seq<char>>| #[trigger]
                    is_auth_path_to(events, starts, path, id);
                closed_set_holds_chain(events, starts, result@, path, id);
            }
            assert(result@ =~= auth_chain(events, starts));
        }
        Ok(result)
    }

    /// The difference of the auth chains of the lists of `event_ids`: what some of the chains hold
    /// and not all, once for each chain that holds it, the ids of an earlier chain before those of a
    /// later one. An error is the error about the first list whose auth chain is incomplete.
    pub fn auth_chain_diff(&self, room_id: &str, event_ids: Vec<Vec<String>>) -> (r: Result<
        Vec<String>,
        Error,
    >)
        ensures
            r is Ok <==> forall|i: int|
                0 <= i < event_ids.len() ==> (#[trigger] auth_chains(
                    self@,
                    event_ids.deep_view(),
                )[i]).subset_of(self@.dom()),
            r matches Ok(ids) ==> forall|id: Seq<char>| #[trigger]
                ids.deep_view().to_multiset().count(id) == times_in_difference(
                    auth_chains(self@, event_ids.deep_view()),
                    id,
                ),
            r matches Ok(ids) ==> exists|parts: Seq<Seq<Seq<char>>>| #[trigger]
                splits_by_chain(
                    ids.deep_view(),
                    parts,
                    auth_chains(self@, event_ids.deep_view()),
                ),
            r matches Err(error) ==> exists|i: int|
                #![trigger event_ids.deep_view()[i]]
                {
                    &&& 0 <= i < event_ids.len()
                    &&& first_missing(self@, event_ids.deep_view()[i], Set::empty()) is Some
                    &&& says_missing(
                        error,
                        first_missing(self@, event_ids.deep_view()[i], Set::empty())->0,
                    )
                    &&& auth_chains(self@, event_ids.deep_view())[i].contains(
                        first_missing(self@, event_ids.deep_view()[i], Set::empty())->0,
                    )
                    &&& !self@.contains_key(
                        first_missing(self@, event_ids.deep_view()[i], Set::empty())->0,
                    )
                    &&& forall|j: int|
                        0 <= j < i ==> first_missing(
                            self@,
                            #[trigger] event_ids.deep_view()[j],
                            Set::empty(),
                        ) is None
                },
    {
        let ghost lists = event_ids.deep_view();
        let ghost chains = auth_chains(self@, lists);
        let mut auth_chain_sets: Vec<IdSet> = Vec::new();
        for i in 0..event_ids.len()
            invariant
                lists == event_ids.deep_view(),
                chains == auth_chains(self@, lists),
                auth_chain_sets.len() == i,
                forall|j: int| 0 <= j < i ==> (#[trigger] auth_chain_sets@[j])@ == chains[j],
                forall|j: int| 0 <= j < i ==> (#[trigger] chains[j]).subset_of(self@.dom()),
                forall|j: int|
                    0 <= j < i ==> first_missing(self@, #[trigger] lists[j], Set::empty()) is None,
        {
            let ids = clone_texts(&event_ids[i]);
            assert(ids.deep_view() == lists[i as int]);
            match self.auth_event_ids(room_id, ids) {
                Ok(chain) => {
                    auth_chain_sets.push(chain);
                },
                Err(error) => {
                    assert(!chains[i as int].subset_of(self@.dom()));
                    return Err(error);
                },
            }
        }
        let mut difference: Vec<String> = Vec::new();
        if auth_chain_sets.len() == 0 {
            broadcast use vstd::seq_lib::group_to_multiset_ensures;

            assert(difference.deep_view() =~= Seq::<Seq<char>>::empty());
            assert(splits_by_chain(difference.deep_view(), seq![], chains));
            return Ok(difference);
        }
        let mut common = auth_chain_sets[0].clone();
        proof {
            assert(auth_chain_sets@[0]@ == chains[0]);
            assert forall|id: Seq<char>| #[trigger]
                common@.contains(id) <==> all_hold(chains.take(1), id) by {
                all_hold_push(chains, 0, id);
            }
        }
        for i in 1..auth_chain_sets.len()
            invariant
                1 <= i <= auth_chain_sets.len() == chains.len(),
                forall|j: int| 0 <= j < chains.len() ==> (#[trigger] auth_chain_sets@[j])@ == chains[j],
                forall|id: Seq<char>| #[trigger]
                    common@.contains(id) <==> all_hold(chains.take(i as int), id),
        {
            common = common.intersection(&auth_chain_sets[i]);
            proof {
                assert forall|id: Seq<char>| #[trigger]
                    common@.contains(id) <==> all_hold(chains.take(i + 1), id) by {
                    all_hold_push(chains, i as int, id);
                    assert(auth_chain_sets@[i as int]@ == chains[i as int]);
                }
            }
        }
        proof {
            broadcast use vstd::seq_lib::group_to_multiset_ensures;

            assert(chains.take(chains.len() as int) =~= chains);
            assert(difference.deep_view() =~= Seq::<Seq<char>>::empty());
        }
        let ghost mut parts: Seq<Seq<Seq<char>>> = seq![];
        for i in 0..auth_chain_sets.len()
            invariant
                auth_chain_sets.len() == chains.len(),
                forall|j: int| 0 <= j < chains.len() ==> (#[trigger] auth_chain_sets@[j])@ == chains[j],
                forall|id: Seq<char>| #[trigger]
                    common@.contains(id) <==> all_hold(chains, id),
                forall|id: Seq<char>| #[trigger]
                    difference.deep_view().to_multiset().count(id) == if common@.contains(id) {
                        0
                    } else {
                        holders(chains.take(i as int), id)
                    },
                parts.len() == i,
                difference.deep_view() == parts.flatten(),
                forall|j: int| 0 <= j < i ==> is_part_of(#[trigger] parts[j], chains, j),
        {
            let ids = auth_chain_sets[i].ids();
            let ghost members = ids.deep_view();
            let ghost mut part: Seq<Seq<char>> = seq![];
            assert(difference.deep_view() =~= parts.flatten() + part);
            for k in 0..ids.len()
                invariant
                    members == ids.deep_view(),
                    members.no_duplicates(),
                    difference.deep_view() == parts.flatten() + part,
                    part.no_duplicates(),
                    forall|id: Seq<char>| #[trigger]
                        part.contains(id) <==> members.take(k as int).contains(id)
                            && !common@.contains(id),
                    forall|id: Seq<char>| #[trigger]
                        difference.deep_view().to_multiset().count(id) == if common@.contains(id) {
                            0
                        } else {
                            holders(chains.take(i as int), id) + if members.take(k as int).contains(
                                id,
                            ) {
                                1nat
                            } else {
                                0nat
                            }
                        },
            {
                broadcast use vstd::seq_lib::group_to_multiset_ensures;

                let ghost before = difference.deep_view();
                let ghost member = ids@[k as int]@;
                let ghost part_before = part;
                if !common.contains(&ids[k]) {
                    difference.push(ids[k].clone());
                    assert(difference.deep_view() =~= before.push(member));
                    proof {
                        assert(members[k as int] == member);
                        assert(!members.take(k as int).contains(member));
                        assert(!part.contains(member));
                        part = part.push(member);
                        assert(difference.deep_view() =~= parts.flatten() + part);
                    }
                }
                proof {
                    assert(members.take(k + 1) =~= members.take(k as int).push(member));
                    assert(members[k as int] == member);
                    assert(!members.take(k as int).contains(member));
                    assert forall|id: Seq<char>| members.take(k + 1).contains(id) <==> members.take(
                        k as int,
                    ).contains(id) || id == member by {
                        members.take(k as int).lemma_push_to_set_commute(member);
                        assert(members.take(k + 1).to_set().contains(id) == members.take(
                            k as int,
                        ).to_set().insert(member).contains(id));
                    }
                    assert forall|id: Seq<char>| #[trigger] part.contains(id) <==> members.take(
                        k + 1,
                    ).contains(id) && !common@.contains(id) by {
                        part_before.lemma_push_to_set_commute(member);
                        assert(part_before.push(member).to_set().contains(id)
                            == part_before.to_set().insert(member).contains(id));
                    }
                }
            }
            proof {
                parts.lemma_flatten_push(part);
                let longer = parts.push(part);
                assert(members.take(members.len() as int) =~= members);
                assert(chains.take(i + 1).drop_last() =~= chains.take(i as int));
                assert forall|id: Seq<char>| #[trigger]
                    members.contains(id) <==> chains[i as int].contains(id) by {
                    assert(members.to_set().contains(id) == chains[i as int].contains(id));
                }
                assert forall|j: int| 0 <= j < longer.len() implies is_part_of(
                    #[trigger] longer[j],
                    chains,
                    j,
                ) by {
                    if j < parts.len() {
                        assert(longer[j] == parts[j]);
                    }
                }
                parts = longer;
            }
        }
        assert(splits_by_chain(difference.deep_view(), parts, chains));
        Ok(difference)
    }
}

/// One more chain holds `id`, or not all do.
proof fn all_hold_push(chains: Seq<Set<Seq<char>>>, n: int, id: Seq<char>)
    requires
        0 <= n < chains.len(),
    ensures
        all_hold(chains.take(n + 1), id) <==> all_hold(chains.take(n), id) && chains[n].contains(id),
{
    let more = chains.take(n + 1);
    let fewer = chains.take(n);
    if all_hold(more, id) {
        assert(more[n] == chains[n]);
        assert forall|i: int| 0 <= i < fewer.len() implies (#[trigger] fewer[i]).contains(id) by {
            assert(more[i] == fewer[i]);
        }
    }
    if all_hold(fewer, id) && chains[n].contains(id) {
        assert forall|i: int| 0 <= i < more.len() implies (#[trigger] more[i]).contains(id) by {
            if i < n {
                assert(more[i] == fewer[i]);
            }
        }
    }
}

/// The auth chain of some events is the least set of ids that holds them and, with each event of the
/// store that it holds, the events that authorise it.
pub proof fn auth_chain_is_the_least_closed_set(
    events: EventsView,
    starts: Set<Seq<char>>,
    closed: Set<Seq<char>>,
)
    ensures
        starts.subset_of(auth_chain(events, starts)),
        forall|id: Seq<char>, auth: Seq<char>|
            auth_chain(events, starts).contains(id) && events.contains_key(id)
                && #[trigger] events[id].auth_events.contains(auth) ==> auth_chain(
                events,
                starts,
            ).contains(auth),
        starts.subset_of(closed) && (forall|id: Seq<char>, auth: Seq<char>|
            closed.contains(id) && events.contains_key(id)
                && #[trigger] events[id].auth_events.contains(auth) ==> closed.contains(auth))
            ==> auth_chain(events, starts).subset_of(closed),
{
    assert forall|id: Seq<char>| starts.contains(id) implies auth_chain(events, starts).contains(
        id,
    ) by {
        auth_chain_holds_starts(events, starts, id);
    }
    assert forall|id: Seq<char>, auth: Seq<char>|
        auth_chain(events, starts).contains(id) && events.contains_key(id)
            && #[trigger] events[id].auth_events.contains(auth) implies auth_chain(
        events,
        starts,
    ).contains(auth) by {
        auth_chain_is_closed(events, starts, id, auth);
    }
    if starts.subset_of(closed) && (forall|id: Seq<char>, auth: Seq<char>|
        closed.contains(id) && events.contains_key(id)
            && #[trigger] events[id].auth_events.contains(auth) ==> closed.contains(auth)) {
        assert forall|id: Seq<char>| #[trigger]
            auth_chain(events, starts).contains(id) implies closed.contains(id) by {
            let path = choose|path: Seq<Seq<char>>| #[trigger]
                is_auth_path_to(events, starts, path, id);
            closed_set_holds_chain(events, starts, closed, path, id);
        }
    }
}

/// An id stands in the difference of auth chains as often as there are chains that hold it, unless
/// every chain does.
pub proof fn difference_counts_the_chains(chains: Seq<Set<Seq<char>>>, id: Seq<char>)
    ensures
        (exists|i: int| 0 <= i < chains.len() && !(#[trigger] chains[i]).contains(id))
            ==> times_in_difference(chains, id) == chains.filter(
            |chain: Set<Seq<char>>| chain.contains(id),
        ).len(),
        (forall|i: int| 0 <= i < chains.len() ==> (#[trigger] chains[i]).contains(id))
            ==> times_in_difference(chains, id) == 0,
{
    holders_are_counted(chains, id);
}

/// The chains that hold an id are those that are left when the others are filtered out.
proof fn holders_are_counted(chains: Seq<Set<Seq<char>>>, id: Seq<char>)
    ensures
        holders(chains, id) == chains.filter(|chain: Set<Seq<char>>| chain.contains(id)).len(),
    decreases chains.len(),
{
    reveal(Seq::filter);
    if chains.len() > 0 {
        holders_are_counted(chains.drop_last(), id);
    }
}

/// Some of `chains` does not hold `id`.
pub open spec fn some_lacks(chains: Seq<Set<Seq<char>>>, id: Seq<char>) -> bool {
    exists|i: int| 0 <= i < chains.len() && !(#[trigger] chains[i]).contains(id)
}

/// `places` says of each of `ids` which chain it comes from.
pub open spec fn comes_from(
    ids: Seq<Seq<char>>,
    places: Seq<int>,
    chains: Seq<Set<Seq<char>>>,
) -> bool {
    &&& places.len() == ids.len()
    &&& forall|p: int|
        0 <= p < ids.len() ==> 0 <= #[trigger] places[p] < chains.len()
            && chains[places[p]].contains(ids[p])
    &&& forall|p: int, q: int| 0 <= p < q < ids.len() ==> #[trigger] places[p] <= #[trigger] places[q]
    &&& forall|p: int, q: int|
        0 <= p < q < ids.len() && #[trigger] places[p] == #[trigger] places[q] ==> ids[p] != ids[q]
}

/// Each id of the difference comes from a chain that holds it, while some chain does not; the ids of
/// an earlier chain come before those of a later one; no chain gives an id twice; and every id that
/// a chain holds and another does not is given by that chain.
pub proof fn difference_follows_the_chains(
    ids: Seq<Seq<char>>,
    parts: Seq<Seq<Seq<char>>>,
    chains: Seq<Set<Seq<char>>>,
) -> (places: Seq<int>)
    requires
        splits_by_chain(ids, parts, chains),
    ensures
        comes_from(ids, places, chains),
        forall|p: int| 0 <= p < ids.len() ==> some_lacks(chains, #[trigger] ids[p]),
        forall|i: int, id: Seq<char>|
            0 <= i < chains.len() && #[trigger] chains[i].contains(id) && some_lacks(chains, id)
                ==> exists|p: int|
                0 <= p < ids.len() && #[trigger] ids[p] == id && places[p] == i,
{
    let places = places_of(parts, parts.len() as int);
    places_match_parts(parts, parts.len() as int);
    assert(parts.take(parts.len() as int) =~= parts);
    assert forall|p: int| 0 <= p < ids.len() implies 0 <= #[trigger] places[p] < chains.len()
        && parts[places[p]].contains(ids[p]) by {}
    assert forall|p: int| 0 <= p < ids.len() implies 0 <= #[trigger] places[p] < chains.len()
        && chains[places[p]].contains(ids[p]) by {
        assert(is_part_of(parts[places[p]], chains, places[p]));
        assert(parts[places[p]].contains(ids[p]));
    }
    assert forall|p: int, q: int|
        0 <= p < q < ids.len() && #[trigger] places[p] == #[trigger] places[q] implies ids[p]
        != ids[q] by {
        assert(is_part_of(parts[places[p]], chains, places[p]));
    }
    assert forall|p: int| 0 <= p < ids.len() implies some_lacks(chains, #[trigger] ids[p]) by {
        assert(0 <= places[p] < chains.len());
        assert(is_part_of(parts[places[p]], chains, places[p]));
        assert(parts[places[p]].contains(ids[p]));
        assert(!all_hold(chains, ids[p]));
    }
    assert forall|i: int, id: Seq<char>|
        0 <= i < chains.len() && #[trigger] chains[i].contains(id) && some_lacks(
            chains,
            id,
        ) implies exists|p: int|
        0 <= p < ids.len() && #[trigger] ids[p] == id && places[p] == i by {
        assert(is_part_of(parts[i], chains, i));
        assert(!all_hold(chains, id));
        assert(parts[i].contains(id));
    }
    places
}

/// Of the ids of the first `n` parts, one after the other, from which part each is.
spec fn places_of(parts: Seq<Seq<Seq<char>>>, n: int) -> Seq<int>
    decreases n,
{
    if n <= 0 {
        seq![]
    } else {
        places_of(parts, n - 1) + Seq::new(parts[n - 1].len(), |k: int| n - 1)
    }
}

/// The ids of the first `n` parts are from where [`places_of`] says, and in that order.
proof fn places_match_parts(parts: Seq<Seq<Seq<char>>>, n: int)
    requires
        0 <= n <= parts.len(),
        forall|i: int| 0 <= i < parts.len() ==> (#[trigger] parts[i]).no_duplicates(),
    ensures
        ({
            let ids = parts.take(n).flatten();
            let places = places_of(parts, n);
            &&& places.len() == ids.len()
            &&& forall|p: int|
                0 <= p < ids.len() ==> 0 <= #[trigger] places[p] < n && parts[places[p]].contains(
                    ids[p],
                )
            &&& forall|p: int, q: int|
                0 <= p < q < ids.len() ==> #[trigger] places[p] <= #[trigger] places[q]
            &&& forall|p: int, q: int|
                0 <= p < q < ids.len() && #[trigger] places[p] == #[trigger] places[q] ==> ids[p]
                    != ids[q]
            &&& forall|i: int, id: Seq<char>|
                0 <= i < n && #[trigger] parts[i].contains(id) ==> exists|p: int|
                    0 <= p < ids.len() && #[trigger] ids[p] == id && places[p] == i
        }),
    decreases n,
{
    if n > 0 {
        places_match_parts(parts, n - 1);
        let part = parts[n - 1];
        let before = parts.take(n - 1).flatten();
        let ids = parts.take(n).flatten();
        let places = places_of(parts, n);
        parts.take(n - 1).lemma_flatten_push(part);
        assert(parts.take(n - 1).push(part) =~= parts.take(n));
        assert(ids == before + part);
        assert forall|p: int| 0 <= p < ids.len() implies 0 <= #[trigger] places[p] < n
            && parts[places[p]].contains(ids[p]) by {
            if p < before.len() {
                assert(places[p] == places_of(parts, n - 1)[p]);
                assert(ids[p] == before[p]);
            } else {
                assert(ids[p] == part[p - before.len()]);
                assert(places[p] == n - 1);
            }
        }
        assert forall|p: int, q: int| 0 <= p < q < ids.len() implies #[trigger] places[p]
            <= #[trigger] places[q] by {
            if q < before.len() {
                assert(places[p] == places_of(parts, n - 1)[p]);
                assert(places[q] == places_of(parts, n - 1)[q]);
            } else {
                assert(places[q] == n - 1);
            }
        }
        assert forall|p: int, q: int|
            0 <= p < q < ids.len() && #[trigger] places[p] == #[trigger] places[q] implies ids[p]
            != ids[q] by {
            if q < before.len() {
                assert(places[p] == places_of(parts, n - 1)[p]);
                assert(places[q] == places_of(parts, n - 1)[q]);
                assert(ids[p] == before[p] && ids[q] == before[q]);
            } else if p < before.len() {
                assert(places[p] == places_of(parts, n - 1)[p]);
            } else {
                assert(part[p - before.len()] != part[q - before.len()]);
            }
        }
        assert forall|i: int, id: Seq<char>|
            0 <= i < n && #[trigger] parts[i].contains(id) implies exists|p: int|
            0 <= p < ids.len() && #[trigger] ids[p] == id && places[p] == i by {
            if i < n - 1 {
                let p = choose|p: int|
                    0 <= p < before.len() && #[trigger] before[p] == id && places_of(
                        parts,
                        n - 1,
                    )[p] == i;
                assert(ids[p] == id && places[p] == i);
            } else {
                let k = choose|k: int| 0 <= k < part.len() && part[k] == id;
                assert(ids[before.len() + k] == id && places[before.len() + k] == i);
            }
        }
    } else {
        assert(parts.take(n) =~= seq![]);
    }
}

/// Each list has its own auth chain, at its own place; and the error about a missing event names the
/// event before it says what is wrong.
pub proof fn each_list_has_its_own_auth_chain(events: EventsView, lists: Seq<Seq<Seq<char>>>)
    ensures
        auth_chains(events, lists).len() == lists.len(),
        forall|i: int|
            0 <= i < lists.len() ==> #[trigger] auth_chains(events, lists)[i] == auth_chain(
                events,
                lists[i].to_set(),
            ),
        forall|id: Seq<char>| #[trigger]
            missing_message(id).take(id.len() as int) == id && missing_message(id).skip(
                id.len() as int,
            ) == " not found"@,
{
    assert forall|id: Seq<char>| #[trigger] missing_message(id).take(id.len() as int) == id
        && missing_message(id).skip(id.len() as int) == " not found"@ by {
        assert(missing_message(id).take(id.len() as int) =~= id);
        assert(missing_message(id).skip(id.len() as int) =~= " not found"@);
    }
}

/// What has been walked once all of `stack` has, where `seen` was walked before.
spec fn walked(events: EventsView, stack: Seq<Seq<char>>, seen: Set<Seq<char>>) -> Set<Seq<char>>
    decreases events.dom().difference(seen).len(), stack.len(),
    when events.dom().finite()
    via walked_terminates
{
    if stack.len() == 0 {
        seen
    } else if seen.contains(stack.last()) {
        walked(events, stack.drop_last(), seen)
    } else if !events.contains_key(stack.last()) {
        seen
    } else {
        walked(
            events,
            stack.drop_last() + events[stack.last()].auth_events,
            seen.insert(stack.last()),
        )
    }
}

#[via_fn]
proof fn walked_terminates(events: EventsView, stack: Seq<Seq<char>>, seen: Set<Seq<char>>) {
    if stack.len() > 0 && !seen.contains(stack.last()) && events.contains_key(stack.last()) {
        walking_shrinks_the_rest(events, seen, stack.last());
    }
}

/// The auth events of what has been walked have been walked or are still to be walked.
spec fn is_walk(events: EventsView, stack: Seq<Seq<char>>, seen: Set<Seq<char>>) -> bool {
    &&& seen.subset_of(events.dom())
    &&& forall|a: Seq<char>, b: Seq<char>|
        seen.contains(a) && #[trigger] events[a].auth_events.contains(b) ==> seen.contains(b)
            || stack.contains(b)
}

/// `closed` holds events of the store, and with each its auth events.
spec fn is_closed(events: EventsView, closed: Set<Seq<char>>) -> bool {
    &&& closed.subset_of(events.dom())
    &&& forall|a: Seq<char>, b: Seq<char>|
        closed.contains(a) && #[trigger] events[a].auth_events.contains(b) ==> closed.contains(b)
}

/// A step of the walk goes from a walk to a walk.
proof fn walk_goes_on(events: EventsView, stack: Seq<Seq<char>>, seen: Set<Seq<char>>)
    requires
        is_walk(events, stack, seen),
        stack.len() > 0,
    ensures
        seen.contains(stack.last()) ==> is_walk(events, stack.drop_last(), seen),
        !seen.contains(stack.last()) && events.contains_key(stack.last()) ==> is_walk(
            events,
            stack.drop_last() + events[stack.last()].auth_events,
            seen.insert(stack.last()),
        ),
{
    let id = stack.last();
    let rest = stack.drop_last();
    assert forall|b: Seq<char>| #[trigger] stack.contains(b) implies b == id || rest.contains(b) by {
        let i = choose|i: int| 0 <= i < stack.len() && stack[i] == b;
        if i < rest.len() {
            assert(rest[i] == b);
        }
    }
    if !seen.contains(id) && events.contains_key(id) {
        let auth = events[id].auth_events;
        assert forall|a: Seq<char>, b: Seq<char>|
            seen.insert(id).contains(a) && #[trigger] events[a].auth_events.contains(
                b,
            ) implies seen.insert(id).contains(b) || (rest + auth).contains(b) by {
            vstd::seq_lib::lemma_seq_concat_contains_all_elements(rest, auth, b);
        }
    }
}

/// A walk that misses nothing ends with all of the stack walked and, of each event, the auth events;
/// one that misses something misses an event that the store does not hold.
proof fn walk_ends_closed(events: EventsView, stack: Seq<Seq<char>>, seen: Set<Seq<char>>)
    requires
        events.dom().finite(),
        is_walk(events, stack, seen),
    ensures
        first_missing(events, stack, seen) is None ==> {
            let end = walked(events, stack, seen);
            &&& is_closed(events, end)
            &&& seen.subset_of(end)
            &&& stack.to_set().subset_of(end)
        },
        first_missing(events, stack, seen) matches Some(id) ==> !events.contains_key(id),
    decreases events.dom().difference(seen).len(), stack.len(),
{
    if stack.len() == 0 {
        assert(is_closed(events, seen));
    } else {
        let id = stack.last();
        let rest = stack.drop_last();
        walk_goes_on(events, stack, seen);
        assert(stack =~= rest.push(id));
        rest.lemma_push_to_set_commute(id);
        if seen.contains(id) {
            walk_ends_closed(events, rest, seen);
        } else if events.contains_key(id) {
            let auth = events[id].auth_events;
            walking_shrinks_the_rest(events, seen, id);
            walk_ends_closed(events, rest + auth, seen.insert(id));
            assert forall|b: Seq<char>| rest.to_set().contains(b) implies (rest + auth).to_set().contains(
                b,
            ) by {
                vstd::seq_lib::lemma_seq_concat_contains_all_elements(rest, auth, b);
            }
        }
    }
}

/// The walk of two stacks, one on the other, is the walk of the upper and then that of the lower.
proof fn walk_of_two_stacks(
    events: EventsView,
    lower: Seq<Seq<char>>,
    upper: Seq<Seq<char>>,
    seen: Set<Seq<char>>,
)
    requires
        events.dom().finite(),
    ensures
        first_missing(events, lower + upper, seen) == match first_missing(events, upper, seen) {
            Some(id) => Some(id),
            None => first_missing(events, lower, walked(events, upper, seen)),
        },
    decreases events.dom().difference(seen).len(), upper.len(),
{
    if upper.len() == 0 {
        assert(lower + upper =~= lower);
    } else {
        let id = upper.last();
        let rest = upper.drop_last();
        assert((lower + upper).last() == id);
        assert((lower + upper).drop_last() =~= lower + rest);
        if seen.contains(id) {
            walk_of_two_stacks(events, lower, rest, seen);
        } else if events.contains_key(id) {
            let auth = events[id].auth_events;
            walking_shrinks_the_rest(events, seen, id);
            walk_of_two_stacks(events, lower, rest + auth, seen.insert(id));
            assert((lower + rest) + auth =~= lower + (rest + auth));
        }
    }
}

/// What is left of `stack` without the members of `closed`.
spec fn outside(stack: Seq<Seq<char>>, closed: Set<Seq<char>>) -> Seq<Seq<char>> {
    stack.filter(|id: Seq<char>| !closed.contains(id))
}

/// What is left of one more event, and of two stacks.
proof fn outside_of_push(
    stack: Seq<Seq<char>>,
    more: Seq<Seq<char>>,
    closed: Set<Seq<char>>,
)
    ensures
        stack.len() > 0 ==> outside(stack, closed) == if closed.contains(stack.last()) {
            outside(stack.drop_last(), closed)
        } else {
            outside(stack.drop_last(), closed).push(stack.last())
        },
        stack.len() == 0 ==> outside(stack, closed) == stack,
        outside(stack + more, closed) == outside(stack, closed) + outside(more, closed),
        (forall|id: Seq<char>| #[trigger] more.contains(id) ==> closed.contains(id)) ==> outside(
            more,
            closed,
        ).len() == 0,
        outside(outside(stack, closed), closed) == outside(stack, closed),
{
    let pred = |id: Seq<char>| !closed.contains(id);
    reveal(Seq::filter);
    Seq::filter_distributes_over_add(stack, more, pred);
    more.filter_lemma(pred);
    if (forall|id: Seq<char>| #[trigger] more.contains(id) ==> closed.contains(id)) && outside(
        more,
        closed,
    ).len() > 0 {
        let first = outside(more, closed)[0];
        assert(pred(first));
        more.lemma_filter_contains_rev(pred, first);
    }
    outside_twice(stack, closed);
}

/// Leaving members out twice is leaving them out once.
proof fn outside_twice(stack: Seq<Seq<char>>, closed: Set<Seq<char>>)
    ensures
        outside(outside(stack, closed), closed) == outside(stack, closed),
    decreases stack.len(),
{
    reveal(Seq::filter);
    if stack.len() > 0 {
        let rest = outside(stack.drop_last(), closed);
        outside_twice(stack.drop_last(), closed);
        if !closed.contains(stack.last()) {
            assert(outside(stack, closed) == rest.push(stack.last()));
            assert(rest.push(stack.last()).drop_last() =~= rest);
        }
    }
}

/// What has been walked already can be left out of the stack.
proof fn walked_events_do_not_matter(
    events: EventsView,
    stack: Seq<Seq<char>>,
    seen: Set<Seq<char>>,
    closed: Set<Seq<char>>,
)
    requires
        events.dom().finite(),
        closed.subset_of(seen),
    ensures
        first_missing(events, stack, seen) == first_missing(events, outside(stack, closed), seen),
    decreases events.dom().difference(seen).len(), stack.len(),
{
    outside_of_push(stack, stack, closed);
    if stack.len() > 0 {
        let id = stack.last();
        let rest = stack.drop_last();
        let left = outside(rest, closed);
        if seen.contains(id) {
            walked_events_do_not_matter(events, rest, seen, closed);
            if !closed.contains(id) {
                assert(left.push(id).drop_last() =~= left);
            }
        } else {
            assert(left.push(id).drop_last() =~= left);
            if events.contains_key(id) {
                let auth = events[id].auth_events;
                walking_shrinks_the_rest(events, seen, id);
                walked_events_do_not_matter(events, rest + auth, seen.insert(id), closed);
                walked_events_do_not_matter(events, left + auth, seen.insert(id), closed);
                outside_of_push(rest, auth, closed);
                outside_of_push(left, auth, closed);
                outside_twice(rest, closed);
            }
        }
    }
}

/// A closed set that the store holds can be counted as walked from the start.
proof fn closed_events_do_not_matter(
    events: EventsView,
    stack: Seq<Seq<char>>,
    seen: Set<Seq<char>>,
    closed: Set<Seq<char>>,
)
    requires
        events.dom().finite(),
        is_closed(events, closed),
    ensures
        first_missing(events, stack, seen) == first_missing(
            events,
            outside(stack, closed),
            seen.union(closed),
        ),
    decreases events.dom().difference(seen).len(), stack.len(),
{
    outside_of_push(stack, stack, closed);
    if stack.len() > 0 {
        let id = stack.last();
        let rest = stack.drop_last();
        let left = outside(rest, closed);
        assert(left.push(id).drop_last() =~= left);
        if seen.contains(id) {
            closed_events_do_not_matter(events, rest, seen, closed);
        } else if events.contains_key(id) {
            let auth = events[id].auth_events;
            walking_shrinks_the_rest(events, seen, id);
            closed_events_do_not_matter(events, rest + auth, seen.insert(id), closed);
            outside_of_push(rest, auth, closed);
            if closed.contains(id) {
                assert(seen.insert(id).union(closed) =~= seen.union(closed));
                assert(left + outside(auth, closed) =~= left);
            } else {
                let both = seen.union(closed).insert(id);
                assert(seen.insert(id).union(closed) =~= both);
                walked_events_do_not_matter(events, left + auth, both, closed);
                outside_of_push(left, auth, closed);
                outside_twice(rest, closed);
            }
        }
    }
}

/// The walk misses something if and only if the auth chain is incomplete, and what it misses first is
/// an event of the chain that the store does not hold.
pub proof fn first_missing_is_in_the_chain(events: EventsView, starts: Seq<Seq<char>>)
    requires
        events.dom().finite(),
    ensures
        first_missing(events, starts, Set::empty()) is None <==> auth_chain(
            events,
            starts.to_set(),
        ).subset_of(events.dom()),
        first_missing(events, starts, Set::empty()) matches Some(id) ==> auth_chain(
            events,
            starts.to_set(),
        ).contains(id) && !events.contains_key(id),
{
    let none = Set::<Seq<char>>::empty();
    assert(is_walk(events, starts, none));
    walk_ends_closed(events, starts, none);
    match first_missing(events, starts, none) {
        None => {
            auth_chain_is_the_least_closed_set(
                events,
                starts.to_set(),
                walked(events, starts, none),
            );
        },
        Some(id) => {
            assert forall|b: Seq<char>| #[trigger] starts.contains(b) implies auth_chain(
                events,
                starts.to_set(),
            ).contains(b) by {
                auth_chain_holds_starts(events, starts.to_set(), b);
            }
            walk_stays_in_the_chain(events, starts.to_set(), starts, none);
        },
    }
}

/// What the walk misses is in the auth chain, where the stack is.
proof fn walk_stays_in_the_chain(
    events: EventsView,
    starts: Set<Seq<char>>,
    stack: Seq<Seq<char>>,
    seen: Set<Seq<char>>,
)
    requires
        events.dom().finite(),
        forall|b: Seq<char>| #[trigger] stack.contains(b) ==> auth_chain(events, starts).contains(b),
    ensures
        first_missing(events, stack, seen) matches Some(id) ==> auth_chain(events, starts).contains(
            id,
        ),
    decreases events.dom().difference(seen).len(), stack.len(),
{
    if stack.len() > 0 {
        let id = stack.last();
        let rest = stack.drop_last();
        assert(stack[stack.len() - 1] == id);
        assert(stack.contains(id));
        assert forall|b: Seq<char>| #[trigger] rest.contains(b) implies auth_chain(
            events,
            starts,
        ).contains(b) by {
            let i = choose|i: int| 0 <= i < rest.len() && rest[i] == b;
            assert(stack[i] == b);
            assert(stack.contains(b));
        }
        if seen.contains(id) {
            walk_stays_in_the_chain(events, starts, rest, seen);
        } else if events.contains_key(id) {
            let auth = events[id].auth_events;
            walking_shrinks_the_rest(events, seen, id);
            assert forall|b: Seq<char>| #[trigger] (rest + auth).contains(b) implies auth_chain(
                events,
                starts,
            ).contains(b) by {
                vstd::seq_lib::lemma_seq_concat_contains_all_elements(rest, auth, b);
                if auth.contains(b) {
                    auth_chain_is_closed(events, starts, id, b);
                }
            }
            walk_stays_in_the_chain(events, starts, rest + auth, seen.insert(id));
        }
    }
}

/// The lists are walked from their last event: what is missed first is missed in the auth chain of the
/// last event, where that is incomplete, and otherwise in those of the events before it, as if the
/// last had not been there. An event that is itself missing is what its own walk misses.
pub proof fn first_missing_is_of_the_last_event(events: EventsView, starts: Seq<Seq<char>>)
    requires
        events.dom().finite(),
        starts.len() > 0,
    ensures
        ({
            let none = Set::<Seq<char>>::empty();
            let last = seq![starts.last()];
            &&& first_missing(events, starts, none) == if auth_chain(
                events,
                last.to_set(),
            ).subset_of(events.dom()) {
                first_missing(events, starts.drop_last(), none)
            } else {
                first_missing(events, last, none)
            }
            &&& !events.contains_key(starts.last()) ==> first_missing(events, starts, none) == Some(
                starts.last(),
            )
        }),
{
    let none = Set::<Seq<char>>::empty();
    let last = seq![starts.last()];
    let rest = starts.drop_last();
    assert(starts =~= rest + last);
    walk_of_two_stacks(events, rest, last, none);
    first_missing_is_in_the_chain(events, last);
    assert(is_walk(events, last, none));
    walk_ends_closed(events, last, none);
    if first_missing(events, last, none) is None {
        let closed = walked(events, last, none);
        closed_events_do_not_matter(events, rest, none, closed);
        walked_events_do_not_matter(events, rest, closed, closed);
        assert(none.union(closed) =~= closed);
    }
}

/// An event that the walk does not come to can be counted as walked.
proof fn unreached_event_does_not_matter(
    events: EventsView,
    stack: Seq<Seq<char>>,
    seen: Set<Seq<char>>,
    starts: Set<Seq<char>>,
    other: Seq<char>,
)
    requires
        events.dom().finite(),
        forall|b: Seq<char>| #[trigger] stack.contains(b) ==> auth_chain(events, starts).contains(b),
        !auth_chain(events, starts).contains(other),
    ensures
        first_missing(events, stack, seen.insert(other)) == first_missing(events, stack, seen),
    decreases events.dom().difference(seen).len(), stack.len(),
{
    if stack.len() > 0 {
        let id = stack.last();
        let rest = stack.drop_last();
        assert(stack[stack.len() - 1] == id);
        assert(stack.contains(id));
        assert forall|b: Seq<char>| #[trigger] rest.contains(b) implies auth_chain(
            events,
            starts,
        ).contains(b) by {
            let i = choose|i: int| 0 <= i < rest.len() && rest[i] == b;
            assert(stack[i] == b);
            assert(stack.contains(b));
        }
        if seen.contains(id) {
            unreached_event_does_not_matter(events, rest, seen, starts, other);
        } else if events.contains_key(id) {
            let auth = events[id].auth_events;
            walking_shrinks_the_rest(events, seen, id);
            assert forall|b: Seq<char>| #[trigger] (rest + auth).contains(b) implies auth_chain(
                events,
                starts,
            ).contains(b) by {
                vstd::seq_lib::lemma_seq_concat_contains_all_elements(rest, auth, b);
                if auth.contains(b) {
                    auth_chain_is_closed(events, starts, id, b);
                }
            }
            unreached_event_does_not_matter(events, rest + auth, seen.insert(id), starts, other);
            assert(seen.insert(other).insert(id) =~= seen.insert(id).insert(other));
        }
    }
}

/// What is missed first from an event of the store that does not authorise itself, however remotely,
/// is what is missed first from its auth events, in their order: the last of them is walked first.
pub proof fn first_missing_of_an_event_is_of_its_auth_events(events: EventsView, id: Seq<char>)
    requires
        events.dom().finite(),
        events.contains_key(id),
        !auth_chain(events, events[id].auth_events.to_set()).contains(id),
    ensures
        first_missing(events, seq![id], Set::empty()) == first_missing(
            events,
            events[id].auth_events,
            Set::empty(),
        ),
{
    let none = Set::<Seq<char>>::empty();
    let auth = events[id].auth_events;
    assert(seq![id].last() == id);
    assert(seq![id].drop_last() + auth =~= auth);
    assert forall|b: Seq<char>| #[trigger] auth.contains(b) implies auth_chain(
        events,
        auth.to_set(),
    ).contains(b) by {
        auth_chain_holds_starts(events, auth.to_set(), b);
    }
    unreached_event_does_not_matter(events, auth, none, auth.to_set(), id);
}

} // verus!
