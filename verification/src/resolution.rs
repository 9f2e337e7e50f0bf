//! Forks of the sample rooms, with all that resolving their states takes.

use vstd::prelude::*;

use crate::collections::IdMap;
use crate::collections::IdSet;
use crate::collections::StateMap;
use crate::event::name_events;
use crate::event::Clock;
use crate::event::PduView;
use crate::identifiers::event_id;
use crate::identifiers::full_event_id;
use crate::identifiers::full_event_ids;
use crate::identifiers::names_event;
use crate::identifiers::room_id;
use crate::samples::at_places;
use crate::samples::ban_events;
use crate::samples::by_id;
use crate::samples::by_id_holds_the_events;
use crate::samples::by_id_is_complete;
use crate::samples::by_id_of_concatenation;
use crate::samples::deeper_events_know_their_auth_events;
use crate::samples::initial_events;
use crate::samples::is_id_of_one;
use crate::samples::plain_name_stands_for_event;
use crate::samples::sample_names;
use crate::samples::shallow_events;
use crate::samples::shallow_events_know_their_auth_events;
use crate::samples::state_after;
use crate::samples::state_holds_ids_of_events;
use crate::samples::BAN_STATE_SET;
use crate::samples::INITIAL_EVENTS;
use crate::store::auth_chain;
use crate::store::auth_chain_is_the_least_closed_set;
use crate::store::complete_store_holds_chains;
use crate::store::is_complete;
use crate::store::EventsView;
use crate::store::TestStore;

verus! {

/// What the resolution of the states of a fork starts from.
pub struct Fork {
    /// The room version, whose rules the resolution follows.
    pub room_version: String,
    /// The states to resolve.
    pub state_sets: Vec<StateMap>,
    /// Of each state the auth chain of its events.
    pub auth_chain_sets: Vec<IdSet>,
    /// The events.
    pub store: TestStore,
}

impl Fork {
    /// Each auth chain is that of the state at the same place.
    pub open spec fn has_auth_chains(self) -> bool {
        &&& self.auth_chain_sets@.len() == self.state_sets@.len()
        &&& forall|i: int|
            0 <= i < self.state_sets@.len() ==> (#[trigger] self.auth_chain_sets@[i])@
                == auth_chain(self.store@, self.state_sets@[i]@.values())
    }
}

/// The events of `events` for which `names` stand.
pub open spec fn named(events: EventsView, names: Seq<Seq<char>>) -> Seq<PduView> {
    names.map_values(|name: Seq<char>| events[full_event_id(name)])
}

/// The store has a state event for each of `names`.
pub open spec fn has_state_events(events: EventsView, names: Seq<Seq<char>>) -> bool {
    forall|i: int|
        0 <= i < names.len() ==> events.contains_key(full_event_id(#[trigger] names[i]))
            && events[full_event_id(names[i])].state_key is Some
}

/// The state to which the named events of a store lead.
fn named_state(store: &TestStore, names: &[&str]) -> (r: StateMap)
    requires
        name_events(names.deep_view()),
        has_state_events(store@, names.deep_view()),
    ensures
        r@ == state_after(named(store@, names.deep_view())),
{
    let mut r = StateMap::new();
    let ghost events = named(store@, names.deep_view());
    assert(r@ =~= state_after(events.take(0)));
    for i in 0..names.len()
        invariant
            name_events(names.deep_view()),
            has_state_events(store@, names.deep_view()),
            events == named(store@, names.deep_view()),
            r@ == state_after(events.take(i as int)),
    {
        assert(names.deep_view()[i as int] == names@[i as int]@);
        assert(names_event(names.deep_view()[i as int]));
        let id = event_id(names[i]);
        let event = store.events.get(&id).unwrap();
        match &event.state_key {
            Some(state_key) => {
                r.insert(event.kind.clone(), state_key.clone(), event.event_id.clone());
            },
            None => {},
        }
        proof {
            assert(events.take(i + 1).drop_last() =~= events.take(i as int));
            assert(events.take(i + 1).last() == event@);
        }
    }
    assert(events.take(events.len() as int) =~= events);
    r
}

/// Of each state the auth chain of its events.
fn auth_chain_sets_of(store: &TestStore, state_sets: &Vec<StateMap>) -> (r: Vec<IdSet>)
    requires
        is_complete(store@),
        forall|i: int|
            0 <= i < state_sets@.len() ==> (#[trigger] state_sets@[i])@.values().subset_of(
                store@.dom(),
            ),
    ensures
        r.len() == state_sets.len(),
        forall|i: int|
            0 <= i < r.len() ==> (#[trigger] r@[i])@ == auth_chain(
                store@,
                state_sets@[i]@.values(),
            ),
{
    let mut r: Vec<IdSet> = Vec::new();
    for i in 0..state_sets.len()
        invariant
            is_complete(store@),
            forall|i: int|
                0 <= i < state_sets@.len() ==> (#[trigger] state_sets@[i])@.values().subset_of(
                    store@.dom(),
                ),
            r.len() == i,
            forall|j: int|
                0 <= j < i ==> (#[trigger] r@[j])@ == auth_chain(store@, state_sets@[j]@.values()),
    {
        assert(state_sets@[i as int]@.values().subset_of(store@.dom()));
        let ids = state_sets[i].values();
        proof {
            complete_store_holds_chains(store@, ids.deep_view().to_set());
        }
        r.push(store.auth_event_ids(room_id(), ids).unwrap());
    }
    r
}

/// A fork at which two users join at the same time.
pub fn resolution_shallow_auth_chain(clock: &mut Clock) -> (r: Fork)
    requires
        old(clock)@.remaining() >= 5,
    ensures
        final(clock)@ == old(clock)@.after(5),
        r.room_version@ == "6"@,
        r.store@ == by_id(shallow_events(old(clock)@.next)),
        r.state_sets@.len() == 2,
        r.state_sets@[0]@ == state_after(
            at_places(shallow_events(old(clock)@.next), seq![0, 1, 2, 3]),
        ),
        r.state_sets@[1]@ == state_after(
            at_places(shallow_events(old(clock)@.next), seq![0, 1, 2, 4]),
        ),
        r.has_auth_chains(),
{
    let ghost events = shallow_events(clock@.next);
    let mut store = TestStore { events: IdMap::new() };
    let ghost before = store@;
    let (state_at_bob, state_at_charlie, _) = store.set_up(clock);
    let state_sets = vec![state_at_bob, state_at_charlie];
    proof {
        assert(store@ =~= by_id(events)) by {
            assert(before.dom() =~= Set::empty());
        }
        shallow_events_know_their_auth_events(old(clock)@.next);
        by_id_is_complete(events);
        places_lead_to_known_ids(events, seq![0, 1, 2, 3]);
        places_lead_to_known_ids(events, seq![0, 1, 2, 4]);
    }
    let auth_chain_sets = auth_chain_sets_of(&store, &state_sets);
    Fork { room_version: "6".to_owned(), state_sets, auth_chain_sets, store }
}

/// The state to which some of `events` lead holds ids of `events` only.
proof fn places_lead_to_known_ids(events: Seq<PduView>, places: Seq<int>)
    requires
        forall|i: int| 0 <= i < places.len() ==> 0 <= #[trigger] places[i] < events.len(),
    ensures
        state_after(at_places(events, places)).values().subset_of(by_id(events).dom()),
{
    let some = at_places(events, places);
    by_id_holds_the_events(events);
    state_holds_ids_of_events(some);
    assert forall|id: Seq<char>| #[trigger] state_after(some).values().contains(id) implies by_id(
        events,
    ).dom().contains(id) by {
        assert(is_id_of_one(some, id));
        let j = choose|j: int| 0 <= j < some.len() && (#[trigger] some[j]).event_id == id;
        assert(events[places[j]].event_id == id);
    }
}

/// The state to which named events lead holds ids of events of the store only.
proof fn names_lead_to_known_ids(events: Seq<PduView>, names: Seq<Seq<char>>)
    requires
        has_state_events(by_id(events), names),
    ensures
        state_after(named(by_id(events), names)).values().subset_of(by_id(events).dom()),
{
    let some = named(by_id(events), names);
    by_id_holds_the_events(events);
    state_holds_ids_of_events(some);
    assert forall|id: Seq<char>| #[trigger] state_after(some).values().contains(id) implies by_id(
        events,
    ).dom().contains(id) by {
        assert(is_id_of_one(some, id));
        let j = choose|j: int| 0 <= j < some.len() && (#[trigger] some[j]).event_id == id;
        assert(by_id(events).contains_key(full_event_id(names[j])));
    }
}

/// The names of the events of the state on the side of the ban.
pub open spec fn ban_side() -> Seq<Seq<char>> {
    seq!["CREATE"@, "IJR"@, "IMA"@, "IMB"@, "IMC"@, "MB"@, "PA"@]
}

/// The names of the events of the state on the other side.
pub open spec fn join_side() -> Seq<Seq<char>> {
    seq!["CREATE"@, "IJR"@, "IMA"@, "IMB"@, "IMC"@, "IME"@, "PA"@]
}

/// The store of the deeper fork has the events of both its sides.
proof fn deeper_store_has_both_sides(ts: u64)
    ensures
        has_state_events(by_id(initial_events(ts) + ban_events((ts + 8) as u64)), ban_side()),
        has_state_events(by_id(initial_events(ts) + ban_events((ts + 8) as u64)), join_side()),
{
    let events = initial_events(ts) + ban_events((ts + 8) as u64);
    by_id_holds_the_events(events);
    assert(events[0].event_id == full_event_id("CREATE"@));
    assert(events[1].event_id == full_event_id("IMA"@));
    assert(events[3].event_id == full_event_id("IJR"@));
    assert(events[4].event_id == full_event_id("IMB"@));
    assert(events[5].event_id == full_event_id("IMC"@));
    assert(events[8].event_id == full_event_id("PA"@));
    assert(events[10].event_id == full_event_id("MB"@));
    assert(events[11].event_id == full_event_id("IME"@));
    assert forall|id: Seq<char>| by_id(events).contains_key(id) implies (#[trigger] by_id(
        events,
    )[id]).state_key is Some by {
        let i = choose|i: int| 0 <= i < events.len() && events[i] == by_id(events)[id];
        assert(events[i].state_key is Some);
    }
}

/// A fork with a deeper set of events, in which `@ella:foo` is banned on the one side and joins
/// on the other.
pub fn resolve_deeper_event_set(clock: &mut Clock) -> (r: Fork)
    requires
        old(clock)@.remaining() >= 12,
    ensures
        final(clock)@ == old(clock)@.after(12),
        r.room_version@ == "6"@,
        r.store@ == by_id(
            initial_events(old(clock)@.next) + ban_events((old(clock)@.next + 8) as u64),
        ),
        r.state_sets@.len() == 2,
        r.state_sets@[0]@ == state_after(named(r.store@, ban_side())),
        r.state_sets@[1]@ == state_after(named(r.store@, join_side())),
        r.has_auth_chains(),
{
    let ghost ts = clock@.next;
    let ghost events = initial_events(ts) + ban_events((ts + 8) as u64);
    let mut inner = INITIAL_EVENTS(clock);
    let ban = BAN_STATE_SET(clock);
    let ghost before = inner@;
    inner.extend(ban);
    let store = TestStore { events: inner };
    proof {
        by_id_of_concatenation(initial_events(ts), ban_events((ts + 8) as u64));
        assert(store@ =~= by_id(events));
        deeper_events_know_their_auth_events(ts);
        by_id_is_complete(events);
        sample_names();
        deeper_store_has_both_sides(ts);
        names_lead_to_known_ids(events, ban_side());
        names_lead_to_known_ids(events, join_side());
    }
    let names_a = ["CREATE", "IJR", "IMA", "IMB", "IMC", "MB", "PA"];
    let names_b = ["CREATE", "IJR", "IMA", "IMB", "IMC", "IME", "PA"];
    assert(names_a.deep_view() =~= ban_side());
    assert(names_b.deep_view() =~= join_side());
    let state_set_a = named_state(&store, &names_a);
    let state_set_b = named_state(&store, &names_b);
    let state_sets = vec![state_set_a, state_set_b];
    let auth_chain_sets = auth_chain_sets_of(&store, &state_sets);
    Fork { room_version: "6".to_owned(), state_sets, auth_chain_sets, store }
}

/// A graph to sort topologically: each event with those that it comes after. Four events come
/// after `o`, which comes after none.
pub open spec fn sort_graph() -> Map<Seq<char>, Set<Seq<char>>> {
    map![
        full_event_id("l"@) => set![full_event_id("o"@)],
        full_event_id("m"@) => set![full_event_id("n"@), full_event_id("o"@)],
        full_event_id("n"@) => set![full_event_id("o"@)],
        full_event_id("o"@) => set![],
        full_event_id("p"@) => set![full_event_id("o"@)],
    ]
}

/// The ids for which `names` stand, as a set.
fn id_set_of(names: &[&str]) -> (r: IdSet)
    requires
        name_events(names.deep_view()),
    ensures
        r@ == full_event_ids(names.deep_view()).to_set(),
{
    let mut r = IdSet::new();
    let ghost ids = full_event_ids(names.deep_view());
    assert(r@ =~= ids.take(0).to_set());
    for i in 0..names.len()
        invariant
            name_events(names.deep_view()),
            ids == full_event_ids(names.deep_view()),
            r@ == ids.take(i as int).to_set(),
    {
        assert(names_event(names.deep_view()[i as int]));
        r.insert(event_id(names[i]));
        proof {
            assert(ids.take(i + 1) =~= ids.take(i as int).push(ids[i as int]));
            ids.take(i as int).lemma_push_to_set_commute(ids[i as int]);
        }
    }
    assert(ids.take(ids.len() as int) =~= ids);
    r
}

/// The power and the time by which an event of the graph is sorted: the same for all of them.
pub fn sort_key(event_id: &str) -> (r: (i64, u64))
    ensures
        r == (0i64, 0u64),
{
    (0, 0)
}

/// The graph of [`sort_graph`], whose events are sorted by [`sort_key`].
pub fn lexico_topo_sort() -> (r: IdMap<IdSet>)
    ensures
        r@.map_values(|ids: IdSet| ids@) == sort_graph(),
{
    proof {
        reveal_strlit("l");
        reveal_strlit("m");
        reveal_strlit("n");
        reveal_strlit("o");
        reveal_strlit("p");
        plain_name_stands_for_event("l"@);
        plain_name_stands_for_event("m"@);
        plain_name_stands_for_event("n"@);
        plain_name_stands_for_event("o"@);
        plain_name_stands_for_event("p"@);
    }
    let only_o = ["o"];
    let n_and_o = ["n", "o"];
    let after_l = id_set_of(&only_o);
    let after_m = id_set_of(&n_and_o);
    let after_n = id_set_of(&only_o);
    let after_o = id_set_of(&[]);
    let after_p = id_set_of(&only_o);
    proof {
        let o = full_event_ids(seq!["o"@]);
        let no = full_event_ids(seq!["n"@, "o"@]);
        assert(o =~= seq![full_event_id("o"@)]);
        assert(no =~= seq![full_event_id("n"@), full_event_id("o"@)]);
        assert(o[0] == full_event_id("o"@) && no[0] == full_event_id("n"@) && no[1]
            == full_event_id("o"@));
        assert(o.to_set() =~= set![full_event_id("o"@)]);
        assert(no.to_set() =~= set![full_event_id("n"@), full_event_id("o"@)]);
        assert(only_o.deep_view() =~= seq!["o"@]);
        assert(n_and_o.deep_view() =~= seq!["n"@, "o"@]);
    }
    let mut graph: IdMap<IdSet> = IdMap::new();
    graph.insert(event_id("l"), after_l);
    graph.insert(event_id("m"), after_m);
    graph.insert(event_id("n"), after_n);
    graph.insert(event_id("o"), after_o);
    graph.insert(event_id("p"), after_p);
    proof {
        assert(after_l@ =~= set![full_event_id("o"@)]);
        assert(after_m@ =~= set![full_event_id("n"@), full_event_id("o"@)]);
        assert(after_n@ =~= set![full_event_id("o"@)]);
        assert(after_o@ =~= set![]);
        assert(after_p@ =~= set![full_event_id("o"@)]);
        assert(graph@.map_values(|ids: IdSet| ids@) =~= sort_graph());
    }
    graph
}

/// The edges of the graph: every event but `o` comes after `o`, `m` comes after `n` too, and there is
/// no other edge and no other event.
pub proof fn sort_graph_has_these_edges(a: Seq<char>, b: Seq<char>)
    ensures
        sort_graph().contains_key(a) <==> a == "$l:foo"@ || a == "$m:foo"@ || a == "$n:foo"@ || a
            == "$o:foo"@ || a == "$p:foo"@,
        sort_graph().contains_key(a) ==> (sort_graph()[a].contains(b) <==> (b == "$o:foo"@ && a
            != "$o:foo"@) || (a == "$m:foo"@ && b == "$n:foo"@)),
{
    reveal_strlit("l");
    reveal_strlit("m");
    reveal_strlit("n");
    reveal_strlit("o");
    reveal_strlit("p");
    reveal_strlit("$l:foo");
    reveal_strlit("$m:foo");
    reveal_strlit("$n:foo");
    reveal_strlit("$o:foo");
    reveal_strlit("$p:foo");
    assert(full_event_id("l"@) =~= "$l:foo"@);
    assert(full_event_id("m"@) =~= "$m:foo"@);
    assert(full_event_id("n"@) =~= "$n:foo"@);
    assert(full_event_id("o"@) =~= "$o:foo"@);
    assert(full_event_id("p"@) =~= "$p:foo"@);
    assert("$l:foo"@[1] == 'l');
    assert("$m:foo"@[1] == 'm');
    assert("$n:foo"@[1] == 'n');
    assert("$o:foo"@[1] == 'o');
    assert("$p:foo"@[1] == 'p');
}

/// Each side of a fork that has its auth chains has, at its own place, the least set of ids that holds
/// the events of that side's state and with each event of the store what authorises it.
pub proof fn forks_have_their_own_auth_chains(fork: Fork, i: int, closed: Set<Seq<char>>)
    requires
        fork.has_auth_chains(),
        0 <= i < fork.state_sets@.len(),
    ensures
        fork.auth_chain_sets@.len() == fork.state_sets@.len(),
        fork.state_sets@[i]@.values().subset_of(fork.auth_chain_sets@[i]@),
        forall|id: Seq<char>, auth: Seq<char>|
            fork.auth_chain_sets@[i]@.contains(id) && fork.store@.contains_key(id)
                && #[trigger] fork.store@[id].auth_events.contains(auth)
                ==> fork.auth_chain_sets@[i]@.contains(auth),
        fork.state_sets@[i]@.values().subset_of(closed) && (forall|
            id: Seq<char>,
            auth: Seq<char>,
        |
            closed.contains(id) && fork.store@.contains_key(id)
                && #[trigger] fork.store@[id].auth_events.contains(auth) ==> closed.contains(auth))
            ==> fork.auth_chain_sets@[i]@.subset_of(closed),
{
    auth_chain_is_the_least_closed_set(fork.store@, fork.state_sets@[i]@.values(), closed);
    assert(fork.auth_chain_sets@[i]@ == auth_chain(fork.store@, fork.state_sets@[i]@.values()));
}

} // verus!
