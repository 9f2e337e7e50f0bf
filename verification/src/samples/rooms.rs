//! What holds of the sample rooms, told by the ids of their events.

use vstd::prelude::*;

use crate::collections::StateKeyView;
use crate::content::json_field;
use crate::content::json_members;
use crate::content::json_string;
use crate::event::PduView;
use crate::identifiers::full_event_id;
use crate::identifiers::full_event_id_is_injective_on_names;
use crate::resolution::ban_side;
use crate::resolution::join_side;
use crate::resolution::named;
use crate::samples::at_places;
use crate::samples::ban_events;
use crate::samples::by_id;
use crate::samples::initial_events;
use crate::samples::shallow_events;
use crate::samples::state_after;
use crate::store::EventsView;

verus! {

/// The last of `events` with the id `id` is `event`.
pub open spec fn last_with_id(events: Seq<PduView>, id: Seq<char>, event: PduView) -> bool {
    exists|i: int|
        0 <= i < events.len() && #[trigger] events[i] == event && event.event_id == id && forall|j: int|
            i < j < events.len() ==> (#[trigger] events[j]).event_id != id
}

/// A store that events were put into one after the other holds under each id the last event with it,
/// and no other id.
pub proof fn by_id_holds_the_last_event(events: Seq<PduView>, id: Seq<char>, event: PduView)
    ensures
        by_id(events).contains_pair(id, event) <==> last_with_id(events, id, event),
    decreases events.len(),
{
    if events.len() > 0 {
        let fewer = events.drop_last();
        let last = events[events.len() - 1];
        by_id_holds_the_last_event(fewer, id, event);
        if last.event_id != id {
            if last_with_id(fewer, id, event) {
                let i = choose|i: int|
                    0 <= i < fewer.len() && #[trigger] fewer[i] == event && event.event_id == id
                        && forall|j: int|
                        i < j < fewer.len() ==> (#[trigger] fewer[j]).event_id != id;
                assert(events[i] == event);
                assert forall|j: int| i < j < events.len() implies (#[trigger] events[j]).event_id
                    != id by {
                    if j < fewer.len() {
                        assert(fewer[j] == events[j]);
                    }
                }
            }
            if last_with_id(events, id, event) {
                let i = choose|i: int|
                    0 <= i < events.len() && #[trigger] events[i] == event && event.event_id == id
                        && forall|j: int|
                        i < j < events.len() ==> (#[trigger] events[j]).event_id != id;
                assert(fewer[i] == event);
                assert forall|j: int| i < j < fewer.len() implies (#[trigger] fewer[j]).event_id
                    != id by {
                    assert(fewer[j] == events[j]);
                }
            }
        } else if last == event {
            assert(events[events.len() - 1] == event);
        }
    }
}

/// The last of `events` with the type and state key `key` has the id `id`.
pub open spec fn last_with_key(events: Seq<PduView>, key: StateKeyView, id: Seq<char>) -> bool {
    exists|i: int|
        0 <= i < events.len() && (#[trigger] events[i]).event_id == id && (
            events[i].kind,
            events[i].state_key->0,
        ) == key && forall|j: int|
            i < j < events.len() ==> ((#[trigger] events[j]).kind, events[j].state_key->0) != key
}

/// The state to which events lead has for each type and state key the id of the last event with them,
/// and nothing else.
pub proof fn state_after_holds_the_last_events(
    events: Seq<PduView>,
    key: StateKeyView,
    id: Seq<char>,
)
    ensures
        state_after(events).contains_pair(key, id) <==> last_with_key(events, key, id),
    decreases events.len(),
{
    if events.len() > 0 {
        let fewer = events.drop_last();
        let last = events[events.len() - 1];
        state_after_holds_the_last_events(fewer, key, id);
        if (last.kind, last.state_key->0) != key {
            if last_with_key(fewer, key, id) {
                let i = choose|i: int|
                    0 <= i < fewer.len() && (#[trigger] fewer[i]).event_id == id && (
                        fewer[i].kind,
                        fewer[i].state_key->0,
                    ) == key && forall|j: int|
                        i < j < fewer.len() ==> (
                            (#[trigger] fewer[j]).kind,
                            fewer[j].state_key->0,
                        ) != key;
                assert(events[i] == fewer[i]);
                assert forall|j: int| i < j < events.len() implies (
                    (#[trigger] events[j]).kind,
                    events[j].state_key->0,
                ) != key by {
                    if j < fewer.len() {
                        assert(fewer[j] == events[j]);
                    }
                }
            }
            if last_with_key(events, key, id) {
                let i = choose|i: int|
                    0 <= i < events.len() && (#[trigger] events[i]).event_id == id && (
                        events[i].kind,
                        events[i].state_key->0,
                    ) == key && forall|j: int|
                        i < j < events.len() ==> (
                            (#[trigger] events[j]).kind,
                            events[j].state_key->0,
                        ) != key;
                assert(events[i] == fewer[i]);
                assert forall|j: int| i < j < fewer.len() implies (
                    (#[trigger] fewer[j]).kind,
                    fewer[j].state_key->0,
                ) != key by {
                    assert(fewer[j] == events[j]);
                }
            }
        } else if last.event_id == id {
            assert(events[events.len() - 1].event_id == id);
        }
    }
}

/// The id with the local part `name` on the server `foo`.
pub open spec fn foo_id(name: Seq<char>) -> Seq<char> {
    "$"@ + name + ":foo"@
}

/// The ids with the local parts `names` on the server `foo`.
pub open spec fn foo_ids(names: Seq<Seq<char>>) -> Seq<Seq<char>> {
    Seq::new(names.len(), |i: int| foo_id(names[i]))
}

/// The event `name` of a store says this, and is a state event of the room `!test:foo`.
pub open spec fn tells(
    store: EventsView,
    name: Seq<char>,
    sender: Seq<char>,
    kind: Seq<char>,
    state_key: Seq<char>,
    content: Seq<char>,
    auth_events: Seq<Seq<char>>,
    prev_events: Seq<Seq<char>>,
) -> bool {
    let event = store[foo_id(name)];
    &&& store.contains_key(foo_id(name))
    &&& event.event_id == foo_id(name)
    &&& event.room_id == "!test:foo"@
    &&& event.sender == sender
    &&& event.kind == kind
    &&& event.state_key == Some(state_key)
    &&& event.content == content
    &&& event.auth_events == foo_ids(auth_events)
    &&& event.prev_events == foo_ids(prev_events)
}

/// The JSON text by which `@alice:foo` creates a room.
pub open spec fn created_by_alice() -> Seq<char> {
    json_field("creator"@, json_string("@alice:foo"@))
}

/// The JSON text of a membership.
pub open spec fn membership(name: Seq<char>) -> Seq<char> {
    json_field("membership"@, json_string(name))
}

/// The JSON text by which everyone may join.
pub open spec fn open_to_everyone() -> Seq<char> {
    json_field("join_rule"@, json_string("public"@))
}

/// The JSON text by which users have power levels.
pub open spec fn power_levels(levels: Seq<(Seq<char>, i64)>) -> Seq<char> {
    json_field("users"@, "{"@ + json_members(levels) + "}"@)
}

/// A name without the sigil stands for its id on the server `foo`.
proof fn foo_id_is_the_full_id(name: Seq<char>)
    requires
        !name.contains('$'),
    ensures
        full_event_id(name) == foo_id(name),
{
    reveal_strlit("$");
    reveal_strlit(":foo");
    assert(full_event_id(name) =~= foo_id(name));
}

/// What the names of the sample events look like.
proof fn reveal_names()
    ensures
        "CREATE"@ == seq!['C', 'R', 'E', 'A', 'T', 'E'],
        "IMA"@ == seq!['I', 'M', 'A'],
        "IPOWER"@ == seq!['I', 'P', 'O', 'W', 'E', 'R'],
        "IJR"@ == seq!['I', 'J', 'R'],
        "IMB"@ == seq!['I', 'M', 'B'],
        "IMC"@ == seq!['I', 'M', 'C'],
        "START"@ == seq!['S', 'T', 'A', 'R', 'T'],
        "END"@ == seq!['E', 'N', 'D'],
        "PA"@ == seq!['P', 'A'],
        "PB"@ == seq!['P', 'B'],
        "MB"@ == seq!['M', 'B'],
        "IME"@ == seq!['I', 'M', 'E'],
{
    reveal_strlit("CREATE");
    reveal_strlit("IMA");
    reveal_strlit("IPOWER");
    reveal_strlit("IJR");
    reveal_strlit("IMB");
    reveal_strlit("IMC");
    reveal_strlit("START");
    reveal_strlit("END");
    reveal_strlit("PA");
    reveal_strlit("PB");
    reveal_strlit("MB");
    reveal_strlit("IME");
    assert("CREATE"@ =~= seq!['C', 'R', 'E', 'A', 'T', 'E']);
    assert("IMA"@ =~= seq!['I', 'M', 'A']);
    assert("IPOWER"@ =~= seq!['I', 'P', 'O', 'W', 'E', 'R']);
    assert("IJR"@ =~= seq!['I', 'J', 'R']);
    assert("IMB"@ =~= seq!['I', 'M', 'B']);
    assert("IMC"@ =~= seq!['I', 'M', 'C']);
    assert("START"@ =~= seq!['S', 'T', 'A', 'R', 'T']);
    assert("END"@ =~= seq!['E', 'N', 'D']);
    assert("PA"@ =~= seq!['P', 'A']);
    assert("PB"@ =~= seq!['P', 'B']);
    assert("MB"@ =~= seq!['M', 'B']);
    assert("IME"@ =~= seq!['I', 'M', 'E']);
}

/// The names of the events of the deeper room, in the order in which they are made.
pub open spec fn deeper_names() -> Seq<Seq<char>> {
    seq![
        "CREATE"@,
        "IMA"@,
        "IPOWER"@,
        "IJR"@,
        "IMB"@,
        "IMC"@,
        "START"@,
        "END"@,
        "PA"@,
        "PB"@,
        "MB"@,
        "IME"@,
    ]
}

/// The names of the sample events differ, and none holds the sigil.
proof fn deeper_names_differ()
    ensures
        forall|i: int, j: int|
            0 <= i < j < 12 ==> #[trigger] deeper_names()[i] != #[trigger] deeper_names()[j],
        forall|i: int| 0 <= i < 12 ==> !(#[trigger] deeper_names()[i]).contains('$'),
{
    reveal_names();
    let names = deeper_names();
    // Length, first, second and last character tell the names apart.
    assert(names[0].len() == 6 && names[0][0] == 'C');
    assert(names[1].len() == 3 && names[1][0] == 'I' && names[1][1] == 'M' && names[1][2] == 'A');
    assert(names[2].len() == 6 && names[2][0] == 'I');
    assert(names[3].len() == 3 && names[3][0] == 'I' && names[3][1] == 'J');
    assert(names[4].len() == 3 && names[4][0] == 'I' && names[4][1] == 'M' && names[4][2] == 'B');
    assert(names[5].len() == 3 && names[5][0] == 'I' && names[5][1] == 'M' && names[5][2] == 'C');
    assert(names[6].len() == 5);
    assert(names[7].len() == 3 && names[7][0] == 'E');
    assert(names[8].len() == 2 && names[8][0] == 'P' && names[8][1] == 'A');
    assert(names[9].len() == 2 && names[9][0] == 'P' && names[9][1] == 'B');
    assert(names[10].len() == 2 && names[10][0] == 'M');
    assert(names[11].len() == 3 && names[11][0] == 'I' && names[11][1] == 'M' && names[11][2] == 'E');
}

/// An event whose id no later event has is found under its id.
proof fn event_is_found(events: Seq<PduView>, i: int)
    requires
        0 <= i < events.len(),
        forall|j: int| i < j < events.len() ==> (#[trigger] events[j]).event_id != events[i].event_id,
    ensures
        by_id(events).contains_key(events[i].event_id),
        by_id(events)[events[i].event_id] == events[i],
{
    assert(last_with_id(events, events[i].event_id, events[i]));
    by_id_holds_the_last_event(events, events[i].event_id, events[i]);
}

/// The store of the deeper room, whose first event has the stamp `ts`.
pub open spec fn deeper_store(ts: u64) -> EventsView {
    by_id(initial_events(ts) + ban_events((ts + 8) as u64))
}

/// The store of the room that forks where two users join, whose first event has the stamp `ts`.
pub open spec fn shallow_store(ts: u64) -> EventsView {
    by_id(shallow_events(ts))
}

/// Every event of the deeper room is found under its id, and nothing else is.
proof fn deeper_events_are_found(ts: u64)
    ensures
        ({
            let events = initial_events(ts) + ban_events((ts + 8) as u64);
            &&& events.len() == 12
            &&& forall|i: int|
                0 <= i < 12 ==> (#[trigger] events[i]).event_id == foo_id(deeper_names()[i])
                    && deeper_store(ts).contains_key(events[i].event_id)
                    && deeper_store(ts)[events[i].event_id] == events[i]
            &&& forall|id: Seq<char>| #[trigger]
                deeper_store(ts).contains_key(id) ==> exists|i: int|
                    0 <= i < 12 && (#[trigger] events[i]).event_id == id
        }),
{
    let events = initial_events(ts) + ban_events((ts + 8) as u64);
    let names = deeper_names();
    deeper_names_differ();
    assert forall|i: int| 0 <= i < 12 implies (#[trigger] events[i]).event_id == full_event_id(
        names[i],
    ) by {}
    assert forall|i: int| 0 <= i < 12 implies (#[trigger] events[i]).event_id == foo_id(names[i])
        && deeper_store(ts).contains_key(events[i].event_id)
        && deeper_store(ts)[events[i].event_id] == events[i] by {
        foo_id_is_the_full_id(names[i]);
        assert forall|j: int| i < j < events.len() implies (#[trigger] events[j]).event_id
            != events[i].event_id by {
            if events[j].event_id == events[i].event_id {
                assert(!names[j].contains('$'));
                full_event_id_is_injective_on_names(names[i], names[j]);
            }
        }
        event_is_found(events, i);
    }
    assert forall|id: Seq<char>| #[trigger] deeper_store(ts).contains_key(id) implies exists|i: int|
        0 <= i < 12 && (#[trigger] events[i]).event_id == id by {
        by_id_holds_the_last_event(events, id, deeper_store(ts)[id]);
        assert(deeper_store(ts).contains_pair(id, deeper_store(ts)[id]));
        let i = choose|i: int|
            0 <= i < events.len() && #[trigger] events[i] == deeper_store(ts)[id]
                && deeper_store(ts)[id].event_id == id && forall|j: int|
                i < j < events.len() ==> (#[trigger] events[j]).event_id != id;
        assert(events[i].event_id == id);
    }
}

/// Every event of the room that forks is found under its id.
proof fn shallow_events_are_found(ts: u64)
    ensures
        ({
            let events = shallow_events(ts);
            let names = seq!["CREATE"@, "IMA"@, "IJR"@, "IMB"@, "IMC"@];
            &&& events.len() == 5
            &&& forall|i: int|
                0 <= i < 5 ==> (#[trigger] events[i]).event_id == foo_id(names[i])
                    && shallow_store(ts).contains_key(events[i].event_id)
                    && shallow_store(ts)[events[i].event_id] == events[i]
            &&& forall|id: Seq<char>| #[trigger]
                shallow_store(ts).contains_key(id) ==> exists|i: int|
                    0 <= i < 5 && (#[trigger] events[i]).event_id == id
        }),
{
    let events = shallow_events(ts);
    let names = seq!["CREATE"@, "IMA"@, "IJR"@, "IMB"@, "IMC"@];
    let all = deeper_names();
    deeper_names_differ();
    assert(names[0] == all[0] && names[1] == all[1] && names[2] == all[3] && names[3] == all[4]
        && names[4] == all[5]);
    assert forall|i: int| 0 <= i < 5 implies (#[trigger] events[i]).event_id == full_event_id(
        names[i],
    ) && !names[i].contains('$') by {}
    assert forall|i: int| 0 <= i < 5 implies (#[trigger] events[i]).event_id == foo_id(names[i])
        && shallow_store(ts).contains_key(events[i].event_id)
        && shallow_store(ts)[events[i].event_id] == events[i] by {
        foo_id_is_the_full_id(names[i]);
        assert forall|j: int| i < j < events.len() implies (#[trigger] events[j]).event_id
            != events[i].event_id by {
            if events[j].event_id == events[i].event_id {
                full_event_id_is_injective_on_names(names[i], names[j]);
            }
        }
        event_is_found(events, i);
    }
    assert forall|id: Seq<char>| #[trigger] shallow_store(ts).contains_key(id) implies exists|i: int|
        0 <= i < 5 && (#[trigger] events[i]).event_id == id by {
        by_id_holds_the_last_event(events, id, shallow_store(ts)[id]);
        assert(shallow_store(ts).contains_pair(id, shallow_store(ts)[id]));
        let i = choose|i: int|
            0 <= i < events.len() && #[trigger] events[i] == shallow_store(ts)[id]
                && shallow_store(ts)[id].event_id == id && forall|j: int|
                i < j < events.len() ==> (#[trigger] events[j]).event_id != id;
        assert(events[i].event_id == id);
    }
}

/// All names of sample events stand for their ids on the server `foo`.
proof fn sample_names_are_foo_ids()
    ensures
        forall|i: int| 0 <= i < 12 ==> full_event_id(#[trigger] deeper_names()[i]) == foo_id(
            deeper_names()[i],
        ),
        full_event_id("CREATE"@) == foo_id("CREATE"@),
        full_event_id("IMA"@) == foo_id("IMA"@),
        full_event_id("IPOWER"@) == foo_id("IPOWER"@),
        full_event_id("IJR"@) == foo_id("IJR"@),
        full_event_id("IMB"@) == foo_id("IMB"@),
        full_event_id("IMC"@) == foo_id("IMC"@),
        full_event_id("START"@) == foo_id("START"@),
        full_event_id("END"@) == foo_id("END"@),
        full_event_id("PA"@) == foo_id("PA"@),
        full_event_id("PB"@) == foo_id("PB"@),
        full_event_id("MB"@) == foo_id("MB"@),
        full_event_id("IME"@) == foo_id("IME"@),
{
    deeper_names_differ();
    let names = deeper_names();
    assert forall|i: int| 0 <= i < 12 implies full_event_id(#[trigger] names[i]) == foo_id(
        names[i],
    ) by {
        foo_id_is_the_full_id(names[i]);
    }
    assert(names[0] == "CREATE"@ && names[1] == "IMA"@ && names[2] == "IPOWER"@ && names[3]
        == "IJR"@ && names[4] == "IMB"@ && names[5] == "IMC"@);
    assert(names[6] == "START"@ && names[7] == "END"@ && names[8] == "PA"@ && names[9] == "PB"@
        && names[10] == "MB"@ && names[11] == "IME"@);
}

/// The deeper room has these events and no other: a room that `@alice:foo` creates and opens, and in
/// which no other user has power at first; `@bob:foo` and `@charlie:foo` join; then, from two topics on,
/// the power levels are set twice, `@ella:foo` is banned under the second, and joins under the
/// first. Each event is authorised by the creation, by what lets its sender act, and by the power
/// levels that it goes by.
pub proof fn deeper_room_has_these_events(ts: u64)
    ensures
        forall|id: Seq<char>| #[trigger]
            deeper_store(ts).contains_key(id) <==> foo_ids(deeper_names()).contains(id),
        tells(
            deeper_store(ts),
            "CREATE"@,
            "@alice:foo"@,
            "m.room.create"@,
            ""@,
            created_by_alice(),
            seq![],
            seq![],
        ),
        tells(
            deeper_store(ts),
            "IMA"@,
            "@alice:foo"@,
            "m.room.member"@,
            "@alice:foo"@,
            membership("join"@),
            seq!["CREATE"@],
            seq!["CREATE"@],
        ),
        tells(
            deeper_store(ts),
            "IPOWER"@,
            "@alice:foo"@,
            "m.room.power_levels"@,
            ""@,
            power_levels(seq![("@alice:foo"@, 100i64)]),
            seq!["CREATE"@, "IMA"@],
            seq!["IMA"@],
        ),
        tells(
            deeper_store(ts),
            "IJR"@,
            "@alice:foo"@,
            "m.room.join_rules"@,
            ""@,
            open_to_everyone(),
            seq!["CREATE"@, "IMA"@, "IPOWER"@],
            seq!["IPOWER"@],
        ),
        tells(
            deeper_store(ts),
            "IMB"@,
            "@bob:foo"@,
            "m.room.member"@,
            "@bob:foo"@,
            membership("join"@),
            seq!["CREATE"@, "IJR"@, "IPOWER"@],
            seq!["IJR"@],
        ),
        tells(
            deeper_store(ts),
            "IMC"@,
            "@charlie:foo"@,
            "m.room.member"@,
            "@charlie:foo"@,
            membership("join"@),
            seq!["CREATE"@, "IJR"@, "IPOWER"@],
            seq!["IMB"@],
        ),
        tells(
            deeper_store(ts),
            "START"@,
            "@charlie:foo"@,
            "m.room.topic"@,
            ""@,
            "{}"@,
            seq![],
            seq![],
        ),
        tells(
            deeper_store(ts),
            "END"@,
            "@charlie:foo"@,
            "m.room.topic"@,
            ""@,
            "{}"@,
            seq![],
            seq![],
        ),
        tells(
            deeper_store(ts),
            "PA"@,
            "@alice:foo"@,
            "m.room.power_levels"@,
            ""@,
            power_levels(seq![("@alice:foo"@, 100i64), ("@bob:foo"@, 50i64)]),
            seq!["CREATE"@, "IMA"@, "IPOWER"@],
            seq!["START"@],
        ),
        tells(
            deeper_store(ts),
            "PB"@,
            "@alice:foo"@,
            "m.room.power_levels"@,
            ""@,
            power_levels(seq![("@alice:foo"@, 100i64), ("@bob:foo"@, 50i64)]),
            seq!["CREATE"@, "IMA"@, "IPOWER"@],
            seq!["END"@],
        ),
        tells(
            deeper_store(ts),
            "MB"@,
            "@alice:foo"@,
            "m.room.member"@,
            "@ella:foo"@,
            membership("ban"@),
            seq!["CREATE"@, "IMA"@, "PB"@],
            seq!["PA"@],
        ),
        tells(
            deeper_store(ts),
            "IME"@,
            "@ella:foo"@,
            "m.room.member"@,
            "@ella:foo"@,
            membership("join"@),
            seq!["CREATE"@, "IJR"@, "PA"@],
            seq!["MB"@],
        ),
{
    let events = initial_events(ts) + ban_events((ts + 8) as u64);
    deeper_events_are_found(ts);
    sample_names_are_foo_ids();
    reveal_strlit("{");
    reveal_strlit("}");
    reveal_strlit("{}");
    assert("{"@ =~= seq!['{']);
    assert("}"@ =~= seq!['}']);
    assert("{}"@ =~= seq!['{', '}']);
    assert(events[0].auth_events =~= foo_ids(seq![]));
    assert(events[0].prev_events =~= foo_ids(seq![]));
    assert(events[1].auth_events =~= foo_ids(seq!["CREATE"@]));
    assert(events[1].prev_events =~= foo_ids(seq!["CREATE"@]));
    assert(events[2].auth_events =~= foo_ids(seq!["CREATE"@, "IMA"@]));
    assert(events[2].prev_events =~= foo_ids(seq!["IMA"@]));
    assert(events[3].auth_events =~= foo_ids(seq!["CREATE"@, "IMA"@, "IPOWER"@]));
    assert(events[3].prev_events =~= foo_ids(seq!["IPOWER"@]));
    assert(events[4].auth_events =~= foo_ids(seq!["CREATE"@, "IJR"@, "IPOWER"@]));
    assert(events[4].prev_events =~= foo_ids(seq!["IJR"@]));
    assert(events[5].auth_events =~= foo_ids(seq!["CREATE"@, "IJR"@, "IPOWER"@]));
    assert(events[5].prev_events =~= foo_ids(seq!["IMB"@]));
    assert(events[6].auth_events =~= foo_ids(seq![]));
    assert(events[6].prev_events =~= foo_ids(seq![]));
    assert(events[7].auth_events =~= foo_ids(seq![]));
    assert(events[7].prev_events =~= foo_ids(seq![]));
    assert(events[8].auth_events =~= foo_ids(seq!["CREATE"@, "IMA"@, "IPOWER"@]));
    assert(events[8].prev_events =~= foo_ids(seq!["START"@]));
    assert(events[9].auth_events =~= foo_ids(seq!["CREATE"@, "IMA"@, "IPOWER"@]));
    assert(events[9].prev_events =~= foo_ids(seq!["END"@]));
    assert(events[10].auth_events =~= foo_ids(seq!["CREATE"@, "IMA"@, "PB"@]));
    assert(events[10].prev_events =~= foo_ids(seq!["PA"@]));
    assert(events[11].auth_events =~= foo_ids(seq!["CREATE"@, "IJR"@, "PA"@]));
    assert(events[11].prev_events =~= foo_ids(seq!["MB"@]));
    assert forall|id: Seq<char>| #[trigger] deeper_store(ts).contains_key(id) <==> foo_ids(
        deeper_names(),
    ).contains(id) by {
        if deeper_store(ts).contains_key(id) {
            let i = choose|i: int| 0 <= i < 12 && (#[trigger] events[i]).event_id == id;
            assert(foo_ids(deeper_names())[i] == id);
        }
        if foo_ids(deeper_names()).contains(id) {
            let i = choose|i: int| 0 <= i < 12 && foo_ids(deeper_names())[i] == id;
            assert(events[i].event_id == id);
        }
    }
}

/// The room that forks has these events: `@alice:foo` creates and opens it, and then `@bob:foo` and
/// `@charlie:foo` join, both after the same event and authorised by the same events.
pub proof fn shallow_room_has_these_events(ts: u64)
    ensures
        tells(
            shallow_store(ts),
            "CREATE"@,
            "@alice:foo"@,
            "m.room.create"@,
            ""@,
            created_by_alice(),
            seq![],
            seq![],
        ),
        tells(
            shallow_store(ts),
            "IMA"@,
            "@alice:foo"@,
            "m.room.member"@,
            "@alice:foo"@,
            membership("join"@),
            seq!["CREATE"@],
            seq!["CREATE"@],
        ),
        tells(
            shallow_store(ts),
            "IJR"@,
            "@alice:foo"@,
            "m.room.join_rules"@,
            ""@,
            open_to_everyone(),
            seq!["CREATE"@, "IMA"@],
            seq!["IMA"@],
        ),
        tells(
            shallow_store(ts),
            "IMB"@,
            "@bob:foo"@,
            "m.room.member"@,
            "@bob:foo"@,
            membership("join"@),
            seq!["CREATE"@, "IJR"@],
            seq!["IJR"@],
        ),
        tells(
            shallow_store(ts),
            "IMC"@,
            "@charlie:foo"@,
            "m.room.member"@,
            "@charlie:foo"@,
            membership("join"@),
            seq!["CREATE"@, "IJR"@],
            seq!["IJR"@],
        ),
        forall|id: Seq<char>| #[trigger]
            shallow_store(ts).contains_key(id) ==> foo_ids(
                seq!["CREATE"@, "IMA"@, "IJR"@, "IMB"@, "IMC"@],
            ).contains(id),
{
    let events = shallow_events(ts);
    let names = seq!["CREATE"@, "IMA"@, "IJR"@, "IMB"@, "IMC"@];
    shallow_events_are_found(ts);
    sample_names_are_foo_ids();
    assert(events[0].auth_events =~= foo_ids(seq![]));
    assert(events[0].prev_events =~= foo_ids(seq![]));
    assert(events[1].auth_events =~= foo_ids(seq!["CREATE"@]));
    assert(events[1].prev_events =~= foo_ids(seq!["CREATE"@]));
    assert(events[2].auth_events =~= foo_ids(seq!["CREATE"@, "IMA"@]));
    assert(events[2].prev_events =~= foo_ids(seq!["IMA"@]));
    assert(events[3].auth_events =~= foo_ids(seq!["CREATE"@, "IJR"@]));
    assert(events[3].prev_events =~= foo_ids(seq!["IJR"@]));
    assert(events[4].auth_events =~= foo_ids(seq!["CREATE"@, "IJR"@]));
    assert(events[4].prev_events =~= foo_ids(seq!["IJR"@]));
    assert forall|id: Seq<char>| #[trigger] shallow_store(ts).contains_key(id) implies foo_ids(
        names,
    ).contains(id) by {
        let i = choose|i: int| 0 <= i < 5 && (#[trigger] events[i]).event_id == id;
        assert(foo_ids(names)[i] == id);
    }
}

/// The membership of the user of a member event.
pub open spec fn has_membership(event: PduView, name: Seq<char>) -> bool {
    event.kind == "m.room.member"@ && event.content == membership(name)
}

/// In both rooms a member event whose user sent it says that the user joins, and one that another
/// user sent says that the user is banned; only `@alice:foo` bans.
pub proof fn users_join_by_themselves(ts: u64, id: Seq<char>)
    ensures
        deeper_store(ts).contains_key(id) && deeper_store(ts)[id].kind == "m.room.member"@ ==> {
            let event = deeper_store(ts)[id];
            &&& event.state_key is Some
            &&& event.sender == event.state_key->0 ==> has_membership(event, "join"@)
            &&& event.sender != event.state_key->0 ==> has_membership(event, "ban"@)
                && event.sender == "@alice:foo"@
        },
        shallow_store(ts).contains_key(id) && shallow_store(ts)[id].kind == "m.room.member"@ ==> {
            let event = shallow_store(ts)[id];
            &&& event.state_key == Some(event.sender)
            &&& has_membership(event, "join"@)
        },
{
    kinds_differ();
    users_differ();
    deeper_room_has_these_events(ts);
    shallow_room_has_these_events(ts);
    if deeper_store(ts).contains_key(id) {
        assert(foo_ids(deeper_names()).contains(id));
        let i = choose|i: int| 0 <= i < 12 && foo_ids(deeper_names())[i] == id;
        assert(id == foo_id(deeper_names()[i]));
        assert(0 <= i < 12);
    }
    if shallow_store(ts).contains_key(id) {
        let names = seq!["CREATE"@, "IMA"@, "IJR"@, "IMB"@, "IMC"@];
        let i = choose|i: int| 0 <= i < 5 && foo_ids(names)[i] == id;
        assert(id == foo_id(names[i]));
        assert(0 <= i < 5);
    }
}

/// The types of the sample events differ.
proof fn kinds_differ()
    ensures
        "m.room.create"@ != "m.room.member"@,
        "m.room.create"@ != "m.room.power_levels"@,
        "m.room.create"@ != "m.room.join_rules"@,
        "m.room.create"@ != "m.room.topic"@,
        "m.room.member"@ != "m.room.power_levels"@,
        "m.room.member"@ != "m.room.join_rules"@,
        "m.room.member"@ != "m.room.topic"@,
        "m.room.power_levels"@ != "m.room.join_rules"@,
        "m.room.power_levels"@ != "m.room.topic"@,
        "m.room.join_rules"@ != "m.room.topic"@,
{
    reveal_strlit("m.room.create");
    reveal_strlit("m.room.member");
    reveal_strlit("m.room.power_levels");
    reveal_strlit("m.room.join_rules");
    reveal_strlit("m.room.topic");
    assert("m.room.create"@[7] == 'c');
    assert("m.room.member"@[7] == 'm');
    assert("m.room.power_levels"@[7] == 'p');
    assert("m.room.join_rules"@[7] == 'j');
    assert("m.room.topic"@[7] == 't');
}

/// The users of the sample rooms differ, and each has a name.
proof fn users_differ()
    ensures
        "@alice:foo"@ != "@bob:foo"@,
        "@alice:foo"@ != "@charlie:foo"@,
        "@alice:foo"@ != "@ella:foo"@,
        "@bob:foo"@ != "@charlie:foo"@,
        "@bob:foo"@ != "@ella:foo"@,
        "@charlie:foo"@ != "@ella:foo"@,
        ""@ != "@alice:foo"@,
        ""@ != "@bob:foo"@,
        ""@ != "@charlie:foo"@,
        ""@ != "@ella:foo"@,
{
    reveal_strlit("");
    reveal_strlit("@alice:foo");
    reveal_strlit("@bob:foo");
    reveal_strlit("@charlie:foo");
    reveal_strlit("@ella:foo");
    assert(""@.len() == 0);
    assert("@alice:foo"@.len() > 0 && "@alice:foo"@[1] == 'a');
    assert("@bob:foo"@.len() > 0 && "@bob:foo"@[1] == 'b');
    assert("@charlie:foo"@.len() > 0 && "@charlie:foo"@[1] == 'c');
    assert("@ella:foo"@.len() > 0 && "@ella:foo"@[1] == 'e');
}

/// What both sides of the deeper fork set.
pub open spec fn set_on_both_sides() -> Map<StateKeyView, Seq<char>> {
    map![
        ("m.room.create"@, ""@) => foo_id("CREATE"@),
        ("m.room.join_rules"@, ""@) => foo_id("IJR"@),
        ("m.room.member"@, "@alice:foo"@) => foo_id("IMA"@),
        ("m.room.member"@, "@bob:foo"@) => foo_id("IMB"@),
        ("m.room.member"@, "@charlie:foo"@) => foo_id("IMC"@),
        ("m.room.power_levels"@, ""@) => foo_id("PA"@),
    ]
}

/// The two states of the deeper fork differ in `@ella:foo` alone: on the one side an event of the
/// store bans that user, on the other an event of the store has that user join. Both sides have all
/// else in common, under the power levels that were set first.
pub proof fn deeper_fork_differs_in_one_user(ts: u64)
    ensures
        ({
            let banned = state_after(named(deeper_store(ts), ban_side()));
            let joined = state_after(named(deeper_store(ts), join_side()));
            let ella = ("m.room.member"@, "@ella:foo"@);
            &&& banned == set_on_both_sides().insert(ella, foo_id("MB"@))
            &&& joined == set_on_both_sides().insert(ella, foo_id("IME"@))
            &&& deeper_store(ts).contains_key(banned[ella])
            &&& has_membership(deeper_store(ts)[banned[ella]], "ban"@)
            &&& deeper_store(ts).contains_key(joined[ella])
            &&& has_membership(deeper_store(ts)[joined[ella]], "join"@)
        }),
{
    deeper_room_has_these_events(ts);
    sample_names_are_foo_ids();
    kinds_differ();
    users_differ();
    let ella = ("m.room.member"@, "@ella:foo"@);
    let common = named(
        deeper_store(ts),
        seq!["CREATE"@, "IJR"@, "IMA"@, "IMB"@, "IMC"@],
    );
    let banned = named(deeper_store(ts), ban_side());
    let joined = named(deeper_store(ts), join_side());
    assert(banned.drop_last().drop_last() =~= common);
    assert(joined.drop_last().drop_last() =~= common);
    assert(common.drop_last() =~= named(deeper_store(ts), seq!["CREATE"@, "IJR"@, "IMA"@, "IMB"@]));
    assert(common.drop_last().drop_last() =~= named(
        deeper_store(ts),
        seq!["CREATE"@, "IJR"@, "IMA"@],
    ));
    assert(common.drop_last().drop_last().drop_last() =~= named(
        deeper_store(ts),
        seq!["CREATE"@, "IJR"@],
    ));
    reveal_with_fuel(state_after, 8);
    assert(state_after(banned) =~= set_on_both_sides().insert(ella, foo_id("MB"@)));
    assert(state_after(joined) =~= set_on_both_sides().insert(ella, foo_id("IME"@)));
}

/// What both sides of the fork set at which two users join.
pub open spec fn set_before_the_fork() -> Map<StateKeyView, Seq<char>> {
    map![
        ("m.room.create"@, ""@) => foo_id("CREATE"@),
        ("m.room.member"@, "@alice:foo"@) => foo_id("IMA"@),
        ("m.room.join_rules"@, ""@) => foo_id("IJR"@),
    ]
}

/// At the fork at which two users join, the one side has set that the one joins, the other that the
/// other does, and what is expected of the resolution is that both do.
pub proof fn shallow_fork_differs_in_two_users(ts: u64)
    ensures
        ({
            let events = shallow_events(ts);
            let bob = ("m.room.member"@, "@bob:foo"@);
            let charlie = ("m.room.member"@, "@charlie:foo"@);
            let before = set_before_the_fork();
            &&& state_after(at_places(events, seq![0, 1, 2, 3])) == before.insert(
                bob,
                foo_id("IMB"@),
            )
            &&& state_after(at_places(events, seq![0, 1, 2, 4])) == before.insert(
                charlie,
                foo_id("IMC"@),
            )
            &&& state_after(events) == before.insert(bob, foo_id("IMB"@)).insert(
                charlie,
                foo_id("IMC"@),
            )
        }),
{
    let events = shallow_events(ts);
    shallow_events_are_found(ts);
    sample_names_are_foo_ids();
    kinds_differ();
    users_differ();
    let common = events.take(3);
    let at_bob = at_places(events, seq![0, 1, 2, 3]);
    let at_charlie = at_places(events, seq![0, 1, 2, 4]);
    let names = seq!["CREATE"@, "IMA"@, "IJR"@, "IMB"@, "IMC"@];
    assert(events[0].event_id == foo_id(names[0]));
    assert(events[1].event_id == foo_id(names[1]));
    assert(events[2].event_id == foo_id(names[2]));
    assert(events[3].event_id == foo_id(names[3]));
    assert(events[4].event_id == foo_id(names[4]));
    assert(at_bob.drop_last() =~= common);
    assert(at_charlie.drop_last() =~= common);
    assert(events.drop_last().drop_last() =~= common);
    assert(common.drop_last() =~= events.take(2));
    assert(events.take(2).drop_last() =~= events.take(1));
    assert(events.take(1).drop_last() =~= seq![]);
    reveal_with_fuel(state_after, 5);
    assert(state_after(common) =~= set_before_the_fork());
}

/// The events of the room that forks are stamped one after the other.
pub proof fn shallow_events_are_stamped_in_turn(ts: u64, i: int)
    requires
        ts + 4 <= u64::MAX,
        0 <= i < 5,
    ensures
        shallow_events(ts)[i].origin_server_ts == ts + i,
{
}

} // verus!
