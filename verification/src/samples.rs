//! Sample rooms: events, the states that they lead to, and what resolving those states starts
//! from.

use vstd::prelude::*;

use crate::collections::IdMap;
use crate::collections::StateKeyView;
use crate::collections::StateMap;
use crate::content::event_type;
use crate::content::json_field;
use crate::content::json_members;
use crate::content::json_string;
use crate::content::kind_name;
use crate::content::member_content_ban;
use crate::content::member_content_join;
use crate::content::raw_empty_object;
use crate::content::raw_levels_field;
use crate::content::raw_public_join_rules;
use crate::content::raw_string_field;
use crate::content::EventKind;
use crate::event::sample_event;
use crate::event::to_pdu_event;
use crate::event::Clock;
use crate::event::Pdu;
use crate::event::PduView;
use crate::event::MAX_TIMESTAMP;
use crate::identifiers::alice;
use crate::identifiers::bob;
use crate::identifiers::charlie;
use crate::identifiers::ella;
use crate::identifiers::event_id;
use crate::identifiers::full_event_id;
use crate::identifiers::full_event_id_is_idempotent;
use crate::identifiers::is_host_char;
use crate::identifiers::is_plain_event_id;
use crate::identifiers::names_event;
use crate::identifiers::splits_plainly;
use crate::store::is_complete;
use crate::store::EventsView;
use crate::store::TestStore;
use crate::text::text_less;

pub mod rooms;

verus! {

/// A short name of host characters stands for an event id.
pub proof fn plain_name_stands_for_event(name: Seq<char>)
    requires
        1 <= name.len() <= 250,
        forall|i: int| 0 <= i < name.len() ==> is_host_char(#[trigger] name[i]),
    ensures
        names_event(name),
{
    assert(!name.contains('$'));
    let text = full_event_id(name);
    let colon = name.len() + 1;
    assert(splits_plainly(text, colon as int)) by {
        assert forall|i: int| 1 <= i < text.len() && i != colon implies is_host_char(
            #[trigger] text[i],
        ) by {
            if i < colon {
                assert(text[i] == name[i - 1]);
            }
        }
    }
    assert(is_plain_event_id(text));
}

/// The names that the sample rooms use stand for event ids.
pub(crate) proof fn sample_names()
    ensures
        names_event("CREATE"@),
        names_event("IMA"@),
        names_event("IPOWER"@),
        names_event("IJR"@),
        names_event("IMB"@),
        names_event("IMC"@),
        names_event("START"@),
        names_event("END"@),
        names_event("PA"@),
        names_event("PB"@),
        names_event("MB"@),
        names_event("IME"@),
{
    reveal_strlit("CREATE");
    reveal_strlit("IMA");
    reveal_strlit("IPOWER");
    reveal_strlit("IJR");
    reveal_strlit("IMB");
    reveal_strlit("IMC");
    reveal_strlit("START");
    reveal_strlit("END");
    reveal_strlit("PA");
    reveal_strlit("PB");
    reveal_strlit("MB");
    reveal_strlit("IME");
    plain_name_stands_for_event("CREATE"@);
    plain_name_stands_for_event("IMA"@);
    plain_name_stands_for_event("IPOWER"@);
    plain_name_stands_for_event("IJR"@);
    plain_name_stands_for_event("IMB"@);
    plain_name_stands_for_event("IMC"@);
    plain_name_stands_for_event("START"@);
    plain_name_stands_for_event("END"@);
    plain_name_stands_for_event("PA"@);
    plain_name_stands_for_event("PB"@);
    plain_name_stands_for_event("MB"@);
    plain_name_stands_for_event("IME"@);
}

/// The content of the event by which `@alice:foo` creates the room.
pub open spec fn create_content() -> Seq<char> {
    json_field("creator"@, json_string("@alice:foo"@))
}

/// The content of a member event.
pub open spec fn member_content(membership: Seq<char>) -> Seq<char> {
    json_field("membership"@, json_string(membership))
}

/// The content of an event that opens the room to everyone.
pub open spec fn public_content() -> Seq<char> {
    json_field("join_rule"@, json_string("public"@))
}

/// The content of an event that gives users their power levels.
pub open spec fn power_content(levels: Seq<(Seq<char>, i64)>) -> Seq<char> {
    json_field("users"@, seq!['{'] + json_members(levels) + seq!['}'])
}

/// The events by their ids; of two with the same id the later one.
pub open spec fn by_id(events: Seq<PduView>) -> EventsView
    decreases events.len(),
{
    if events.len() == 0 {
        Map::empty()
    } else {
        by_id(events.drop_last()).insert(events.last().event_id, events.last())
    }
}

/// The event that stands under an id is one of the events, and every event's id is known.
pub(crate) proof fn by_id_holds_the_events(events: Seq<PduView>)
    ensures
        forall|id: Seq<char>| #[trigger]
            by_id(events).contains_key(id) ==> events.contains(by_id(events)[id]) && by_id(
                events,
            )[id].event_id == id,
        forall|i: int|
            0 <= i < events.len() ==> by_id(events).contains_key((#[trigger] events[i]).event_id),
    decreases events.len(),
{
    if events.len() > 0 {
        let fewer = events.drop_last();
        by_id_holds_the_events(fewer);
        assert forall|id: Seq<char>| #[trigger] by_id(events).contains_key(id) implies events.contains(
            by_id(events)[id],
        ) && by_id(events)[id].event_id == id by {
            if id == events.last().event_id {
                assert(events[events.len() - 1] == events.last());
            } else {
                let i = choose|i: int| 0 <= i < fewer.len() && fewer[i] == by_id(fewer)[id];
                assert(events[i] == by_id(fewer)[id]);
            }
        }
        assert forall|i: int| 0 <= i < events.len() implies by_id(events).contains_key(
            (#[trigger] events[i]).event_id,
        ) by {
            if i < fewer.len() {
                assert(fewer[i] == events[i]);
            }
        }
    }
}

/// Adding events to a store one after the other is adding the store of those events.
pub(crate) proof fn by_id_of_concatenation(a: Seq<PduView>, b: Seq<PduView>)
    ensures
        by_id(a + b) == by_id(a).union_prefer_right(by_id(b)),
    decreases b.len(),
{
    if b.len() == 0 {
        assert(a + b =~= a);
        assert(by_id(a + b) =~= by_id(a).union_prefer_right(by_id(b)));
    } else {
        by_id_of_concatenation(a, b.drop_last());
        assert((a + b).drop_last() =~= a + b.drop_last());
        assert(by_id(a + b) =~= by_id(a).union_prefer_right(by_id(b)));
    }
}

/// The auth events of each of `events` are among `events`.
pub open spec fn know_their_auth_events(events: Seq<PduView>) -> bool {
    forall|i: int, k: int|
        0 <= i < events.len() && 0 <= k < events[i].auth_events.len() ==> is_id_of_one(
            events,
            #[trigger] events[i].auth_events[k],
        )
}

/// `id` is the id of one of `events`.
pub open spec fn is_id_of_one(events: Seq<PduView>, id: Seq<char>) -> bool {
    exists|j: int| 0 <= j < events.len() && (#[trigger] events[j]).event_id == id
}

/// A store made of events that know their auth events is complete.
pub(crate) proof fn by_id_is_complete(events: Seq<PduView>)
    requires
        know_their_auth_events(events),
    ensures
        is_complete(by_id(events)),
{
    by_id_holds_the_events(events);
    assert forall|id: Seq<char>, auth: Seq<char>|
        by_id(events).contains_key(id) && #[trigger] by_id(events)[id].auth_events.contains(
            auth,
        ) implies by_id(events).contains_key(auth) by {
        let i = choose|i: int| 0 <= i < events.len() && events[i] == by_id(events)[id];
        let k = choose|k: int|
            0 <= k < events[i].auth_events.len() && events[i].auth_events[k] == auth;
        assert(is_id_of_one(events, events[i].auth_events[k]));
    }
}

/// The state to which `events` lead, each of them a state event.
pub open spec fn state_after(events: Seq<PduView>) -> Map<StateKeyView, Seq<char>>
    decreases events.len(),
{
    if events.len() == 0 {
        Map::empty()
    } else {
        let event = events.last();
        state_after(events.drop_last()).insert((event.kind, event.state_key->0), event.event_id)
    }
}

/// What the events say.
pub open spec fn event_views(events: Seq<Pdu>) -> Seq<PduView> {
    events.map_values(|event: Pdu| event@)
}

/// What the events say.
spec fn borrowed_views(events: Seq<&Pdu>) -> Seq<PduView> {
    events.map_values(|event: &Pdu| event@)
}

/// The store of `events`.
fn collect_events(events: Vec<Pdu>) -> (r: IdMap<Pdu>)
    ensures
        r@.map_values(|event: Pdu| event@) == by_id(event_views(events@)),
{
    let mut r: IdMap<Pdu> = IdMap::new();
    let ghost views = event_views(events@);
    assert(r@.map_values(|event: Pdu| event@) =~= by_id(views.take(0)));
    for i in 0..events.len()
        invariant
            views == event_views(events@),
            r@.map_values(|event: Pdu| event@) == by_id(views.take(i as int)),
    {
        let event = events[i].clone();
        let id = event.event_id.clone();
        let ghost before = r@;
        r.insert(id, event);
        proof {
            assert(views.take(i + 1).drop_last() =~= views.take(i as int));
            assert(r@.map_values(|event: Pdu| event@) =~= before.map_values(
                |event: Pdu| event@,
            ).insert(views[i as int].event_id, views[i as int]));
        }
    }
    assert(views.take(views.len() as int) =~= views);
    r
}

/// The state to which `events` lead.
fn state_map_of(events: &[&Pdu]) -> (r: StateMap)
    requires
        forall|i: int| 0 <= i < events@.len() ==> (#[trigger] events@[i]).state_key is Some,
    ensures
        r@ == state_after(borrowed_views(events@)),
{
    let mut r = StateMap::new();
    let ghost views = borrowed_views(events@);
    assert(r@ =~= state_after(views.take(0)));
    for i in 0..events.len()
        invariant
            forall|i: int| 0 <= i < events@.len() ==> (#[trigger] events@[i]).state_key is Some,
            views == borrowed_views(events@),
            r@ == state_after(views.take(i as int)),
    {
        let event = events[i];
        match &event.state_key {
            Some(state_key) => {
                r.insert(event.kind.clone(), state_key.clone(), event.event_id.clone());
            },
            None => {},
        }
        proof {
            assert(views.take(i + 1).drop_last() =~= views.take(i as int));
            assert(views.take(i + 1).last() == events@[i as int]@);
        }
    }
    assert(views.take(views.len() as int) =~= views);
    r
}

/// The events with which all graphs start, from the time stamp `ts` on.
pub open spec fn initial_events(ts: u64) -> Seq<PduView> {
    seq![
        sample_event(
            ts,
            "CREATE"@,
            "@alice:foo"@,
            kind_name(EventKind::RoomCreate),
            Some(""@),
            create_content(),
            seq![],
            seq![],
        ),
        sample_event(
            (ts + 1) as u64,
            "IMA"@,
            "@alice:foo"@,
            kind_name(EventKind::RoomMember),
            Some("@alice:foo"@),
            member_content("join"@),
            seq!["CREATE"@],
            seq!["CREATE"@],
        ),
        sample_event(
            (ts + 2) as u64,
            "IPOWER"@,
            "@alice:foo"@,
            kind_name(EventKind::RoomPowerLevels),
            Some(""@),
            power_content(seq![("@alice:foo"@, 100i64)]),
            seq!["CREATE"@, "IMA"@],
            seq!["IMA"@],
        ),
        sample_event(
            (ts + 3) as u64,
            "IJR"@,
            "@alice:foo"@,
            kind_name(EventKind::RoomJoinRules),
            Some(""@),
            public_content(),
            seq!["CREATE"@, "IMA"@, "IPOWER"@],
            seq!["IPOWER"@],
        ),
        sample_event(
            (ts + 4) as u64,
            "IMB"@,
            "@bob:foo"@,
            kind_name(EventKind::RoomMember),
            Some("@bob:foo"@),
            member_content("join"@),
            seq!["CREATE"@, "IJR"@, "IPOWER"@],
            seq!["IJR"@],
        ),
        sample_event(
            (ts + 5) as u64,
            "IMC"@,
            "@charlie:foo"@,
            kind_name(EventKind::RoomMember),
            Some("@charlie:foo"@),
            member_content("join"@),
            seq!["CREATE"@, "IJR"@, "IPOWER"@],
            seq!["IMB"@],
        ),
        sample_event(
            (ts + 6) as u64,
            "START"@,
            "@charlie:foo"@,
            kind_name(EventKind::RoomTopic),
            Some(""@),
            seq!['{', '}'],
            seq![],
            seq![],
        ),
        sample_event(
            (ts + 7) as u64,
            "END"@,
            "@charlie:foo"@,
            kind_name(EventKind::RoomTopic),
            Some(""@),
            seq!['{', '}'],
            seq![],
            seq![],
        ),
    ]
}

/// The events of a fork in which `@ella:foo` is banned on one side, from the time stamp `ts` on.
pub open spec fn ban_events(ts: u64) -> Seq<PduView> {
    seq![
        sample_event(
            ts,
            "PA"@,
            "@alice:foo"@,
            kind_name(EventKind::RoomPowerLevels),
            Some(""@),
            power_content(seq![("@alice:foo"@, 100i64), ("@bob:foo"@, 50i64)]),
            seq!["CREATE"@, "IMA"@, "IPOWER"@],
            seq!["START"@],
        ),
        sample_event(
            (ts + 1) as u64,
            "PB"@,
            "@alice:foo"@,
            kind_name(EventKind::RoomPowerLevels),
            Some(""@),
            power_content(seq![("@alice:foo"@, 100i64), ("@bob:foo"@, 50i64)]),
            seq!["CREATE"@, "IMA"@, "IPOWER"@],
            seq!["END"@],
        ),
        sample_event(
            (ts + 2) as u64,
            "MB"@,
            "@alice:foo"@,
            kind_name(EventKind::RoomMember),
            Some("@ella:foo"@),
            member_content("ban"@),
            seq!["CREATE"@, "IMA"@, "PB"@],
            seq!["PA"@],
        ),
        sample_event(
            (ts + 3) as u64,
            "IME"@,
            "@ella:foo"@,
            kind_name(EventKind::RoomMember),
            Some("@ella:foo"@),
            member_content("join"@),
            seq!["CREATE"@, "IJR"@, "PA"@],
            seq!["MB"@],
        ),
    ]
}

/// The content of an event that gives `@alice:foo` the power level 100.
fn alice_power_content() -> (r: String)
    ensures
        r@ == power_content(seq![("@alice:foo"@, 100i64)]),
{
    let levels = vec![(alice().to_owned(), 100i64)];
    assert(levels.deep_view() =~= seq![("@alice:foo"@, 100i64)]);
    raw_levels_field("users", &levels)
}

/// The content of an event that gives `@alice:foo` the power level 100 and `@bob:foo` 50.
fn alice_and_bob_power_content() -> (r: String)
    ensures
        r@ == power_content(seq![("@alice:foo"@, 100i64), ("@bob:foo"@, 50i64)]),
{
    let levels = vec![(alice().to_owned(), 100i64), (bob().to_owned(), 50i64)];
    proof {
        assert(levels.deep_view() =~= seq![("@alice:foo"@, 100i64), ("@bob:foo"@, 50i64)]);
        reveal_strlit("@alice:foo");
        reveal_strlit("@bob:foo");
        reveal_with_fuel(text_less, 3);
    }
    raw_levels_field("users", &levels)
}

/// The events with which all graphs start.
#[allow(non_snake_case)]
pub fn INITIAL_EVENTS(clock: &mut Clock) -> (r: IdMap<Pdu>)
    requires
        old(clock)@.remaining() >= 8,
    ensures
        final(clock)@ == old(clock)@.after(8),
        r@.map_values(|event: Pdu| event@) == by_id(initial_events(old(clock)@.next)),
{
    proof {
        sample_names();
    }
    let ghost ts = clock@.next;
    let events = vec![
        to_pdu_event(
            clock,
            "CREATE",
            alice(),
            &event_type(EventKind::RoomCreate),
            Some(""),
            raw_string_field("creator", alice()),
            &[],
            &[],
        ),
        to_pdu_event(
            clock,
            "IMA",
            alice(),
            &event_type(EventKind::RoomMember),
            Some(alice()),
            member_content_join(),
            &["CREATE"],
            &["CREATE"],
        ),
        to_pdu_event(
            clock,
            "IPOWER",
            alice(),
            &event_type(EventKind::RoomPowerLevels),
            Some(""),
            alice_power_content(),
            &["CREATE", "IMA"],
            &["IMA"],
        ),
        to_pdu_event(
            clock,
            "IJR",
            alice(),
            &event_type(EventKind::RoomJoinRules),
            Some(""),
            raw_public_join_rules(),
            &["CREATE", "IMA", "IPOWER"],
            &["IPOWER"],
        ),
        to_pdu_event(
            clock,
            "IMB",
            bob(),
            &event_type(EventKind::RoomMember),
            Some(bob()),
            member_content_join(),
            &["CREATE", "IJR", "IPOWER"],
            &["IJR"],
        ),
        to_pdu_event(
            clock,
            "IMC",
            charlie(),
            &event_type(EventKind::RoomMember),
            Some(charlie()),
            member_content_join(),
            &["CREATE", "IJR", "IPOWER"],
            &["IMB"],
        ),
        to_pdu_event(
            clock,
            "START",
            charlie(),
            &event_type(EventKind::RoomTopic),
            Some(""),
            raw_empty_object(),
            &[],
            &[],
        ),
        to_pdu_event(
            clock,
            "END",
            charlie(),
            &event_type(EventKind::RoomTopic),
            Some(""),
            raw_empty_object(),
            &[],
            &[],
        ),
    ];
    assert(event_views(events@) =~~= initial_events(ts));
    collect_events(events)
}

/// The events of a fork in which `@ella:foo` is banned on one side.
#[allow(non_snake_case)]
pub fn BAN_STATE_SET(clock: &mut Clock) -> (r: IdMap<Pdu>)
    requires
        old(clock)@.remaining() >= 4,
    ensures
        final(clock)@ == old(clock)@.after(4),
        r@.map_values(|event: Pdu| event@) == by_id(ban_events(old(clock)@.next)),
{
    proof {
        sample_names();
    }
    let ghost ts = clock@.next;
    let events = vec![
        to_pdu_event(
            clock,
            "PA",
            alice(),
            &event_type(EventKind::RoomPowerLevels),
            Some(""),
            alice_and_bob_power_content(),
            &["CREATE", "IMA", "IPOWER"],
            &["START"],
        ),
        to_pdu_event(
            clock,
            "PB",
            alice(),
            &event_type(EventKind::RoomPowerLevels),
            Some(""),
            alice_and_bob_power_content(),
            &["CREATE", "IMA", "IPOWER"],
            &["END"],
        ),
        to_pdu_event(
            clock,
            "MB",
            alice(),
            &event_type(EventKind::RoomMember),
            Some(ella()),
            member_content_ban(),
            &["CREATE", "IMA", "PB"],
            &["PA"],
        ),
        to_pdu_event(
            clock,
            "IME",
            ella(),
            &event_type(EventKind::RoomMember),
            Some(ella()),
            member_content_join(),
            &["CREATE", "IJR", "PA"],
            &["MB"],
        ),
    ];
    assert(event_views(events@) =~~= ban_events(ts));
    collect_events(events)
}

/// The events of a fork at which `@bob:foo` and `@charlie:foo` join at the same time, from the
/// time stamp `ts` on.
pub open spec fn shallow_events(ts: u64) -> Seq<PduView> {
    seq![
        sample_event(
            ts,
            "CREATE"@,
            "@alice:foo"@,
            kind_name(EventKind::RoomCreate),
            Some(""@),
            create_content(),
            seq![],
            seq![],
        ),
        sample_event(
            (ts + 1) as u64,
            "IMA"@,
            "@alice:foo"@,
            kind_name(EventKind::RoomMember),
            Some("@alice:foo"@),
            member_content("join"@),
            seq!["CREATE"@],
            seq!["CREATE"@],
        ),
        sample_event(
            (ts + 2) as u64,
            "IJR"@,
            "@alice:foo"@,
            kind_name(EventKind::RoomJoinRules),
            Some(""@),
            public_content(),
            seq!["CREATE"@, "IMA"@],
            seq!["IMA"@],
        ),
        sample_event(
            (ts + 3) as u64,
            "IMB"@,
            "@bob:foo"@,
            kind_name(EventKind::RoomMember),
            Some("@bob:foo"@),
            member_content("join"@),
            seq!["CREATE"@, "IJR"@],
            seq!["IJR"@],
        ),
        sample_event(
            (ts + 4) as u64,
            "IMC"@,
            "@charlie:foo"@,
            kind_name(EventKind::RoomMember),
            Some("@charlie:foo"@),
            member_content("join"@),
            seq!["CREATE"@, "IJR"@],
            seq!["IJR"@],
        ),
    ]
}

/// The events of `events` at `places`.
pub open spec fn at_places(events: Seq<PduView>, places: Seq<int>) -> Seq<PduView> {
    places.map_values(|place: int| events[place])
}

/// An event id stands for itself.
pub(crate) proof fn full_ids_name_events(name: Seq<char>)
    requires
        names_event(name),
    ensures
        names_event(full_event_id(name)),
        full_event_id(full_event_id(name)) == full_event_id(name),
{
    full_event_id_is_idempotent(name);
}

/// One event more in the store is one more in the list.
pub(crate) proof fn by_id_of_push(events: Seq<PduView>, event: PduView)
    ensures
        by_id(events.push(event)) == by_id(events).insert(event.event_id, event),
{
    assert(events.push(event).drop_last() =~= events);
}

impl TestStore {
    /// Puts `event` under its id.
    fn add_event(&mut self, event: &Pdu)
        ensures
            final(self)@ == old(self)@.insert(event@.event_id, event@),
    {
        let ghost before = self@;
        self.events.insert(event.event_id.clone(), event.clone());
        assert(self@ =~= before.insert(event@.event_id, event@));
    }

    /// Adds the events of a fork at which `@bob:foo` and `@charlie:foo` join at the same time.
    /// Hands out the state at the one, the state at the other, and the state that is expected when
    /// the two are resolved.
    pub fn set_up(&mut self, clock: &mut Clock) -> (r: (StateMap, StateMap, StateMap))
        requires
            old(clock)@.remaining() >= 5,
        ensures
            final(clock)@ == old(clock)@.after(5),
            final(self)@ == old(self)@.union_prefer_right(by_id(shallow_events(old(clock)@.next))),
            r.0@ == state_after(at_places(shallow_events(old(clock)@.next), seq![0, 1, 2, 3])),
            r.1@ == state_after(at_places(shallow_events(old(clock)@.next), seq![0, 1, 2, 4])),
            r.2@ == state_after(shallow_events(old(clock)@.next)),
    {
        let ghost ts = clock@.next;
        let ghost events = shallow_events(ts);
        let ghost before = self@;
        proof {
            sample_names();
            full_ids_name_events("CREATE"@);
            full_ids_name_events("IMA"@);
            full_ids_name_events("IJR"@);
        }
        let create_event = to_pdu_event(
            clock,
            "CREATE",
            alice(),
            &event_type(EventKind::RoomCreate),
            Some(""),
            raw_string_field("creator", alice()),
            &[],
            &[],
        );
        let cre = create_event.event_id.clone();
        self.add_event(&create_event);

        let alice_mem = to_pdu_event(
            clock,
            "IMA",
            alice(),
            &event_type(EventKind::RoomMember),
            Some(alice()),
            member_content_join(),
            &[cre.as_str()],
            &[cre.as_str()],
        );
        self.add_event(&alice_mem);

        let join_rules = to_pdu_event(
            clock,
            "IJR",
            alice(),
            &event_type(EventKind::RoomJoinRules),
            Some(""),
            raw_public_join_rules(),
            &[cre.as_str(), alice_mem.event_id.as_str()],
            &[alice_mem.event_id.as_str()],
        );
        self.add_event(&join_rules);

        // Both join after the same event, so the room forks here.
        let bob_mem = to_pdu_event(
            clock,
            "IMB",
            bob(),
            &event_type(EventKind::RoomMember),
            Some(bob()),
            member_content_join(),
            &[cre.as_str(), join_rules.event_id.as_str()],
            &[join_rules.event_id.as_str()],
        );
        self.add_event(&bob_mem);

        let charlie_mem = to_pdu_event(
            clock,
            "IMC",
            charlie(),
            &event_type(EventKind::RoomMember),
            Some(charlie()),
            member_content_join(),
            &[cre.as_str(), join_rules.event_id.as_str()],
            &[join_rules.event_id.as_str()],
        );
        self.add_event(&charlie_mem);
        proof {
            let made = seq![create_event@, alice_mem@, join_rules@, bob_mem@, charlie_mem@];
            assert(made =~~= events);
            let none = Seq::<PduView>::empty();
            by_id_of_push(none, made[0]);
            by_id_of_push(none.push(made[0]), made[1]);
            by_id_of_push(none.push(made[0]).push(made[1]), made[2]);
            by_id_of_push(none.push(made[0]).push(made[1]).push(made[2]), made[3]);
            by_id_of_push(none.push(made[0]).push(made[1]).push(made[2]).push(made[3]), made[4]);
            assert(made =~= none.push(made[0]).push(made[1]).push(made[2]).push(made[3]).push(
                made[4],
            ));
            assert(self@ =~= before.union_prefer_right(by_id(events)));
        }

        let at_bob = [&create_event, &alice_mem, &join_rules, &bob_mem];
        let at_charlie = [&create_event, &alice_mem, &join_rules, &charlie_mem];
        let state_at_bob = state_map_of(&at_bob);
        let state_at_charlie = state_map_of(&at_charlie);
        let at_both = [&create_event, &alice_mem, &join_rules, &bob_mem, &charlie_mem];
        let expected = state_map_of(&at_both);
        proof {
            assert(borrowed_views(at_bob@) =~= at_places(events, seq![0, 1, 2, 3]));
            assert(borrowed_views(at_charlie@) =~= at_places(events, seq![0, 1, 2, 4]));
            assert(borrowed_views(at_both@) =~= events);
        }
        (state_at_bob, state_at_charlie, expected)
    }
}

/// Each of the events of the deeper fork has a time stamp of its own, one later than the event made
/// before it.
pub proof fn deeper_events_have_stamps_of_their_own(ts: u64)
    requires
        ts + 11 <= MAX_TIMESTAMP,
    ensures
        ({
            let events = initial_events(ts) + ban_events((ts + 8) as u64);
            &&& events.len() == 12
            &&& forall|i: int| 0 <= i < 12 ==> (#[trigger] events[i]).origin_server_ts == ts + i
        }),
{
}

/// The state that is expected of the fork holds what holds on either side, and nothing else.
pub proof fn expected_state_joins_both_sides(ts: u64)
    ensures
        state_after(shallow_events(ts)) == state_after(
            at_places(shallow_events(ts), seq![0, 1, 2, 3]),
        ).union_prefer_right(state_after(at_places(shallow_events(ts), seq![0, 1, 2, 4]))),
{
    let events = shallow_events(ts);
    let common = events.take(3);
    let at_bob = at_places(events, seq![0, 1, 2, 3]);
    let at_charlie = at_places(events, seq![0, 1, 2, 4]);
    reveal_strlit("");
    reveal_strlit("@alice:foo");
    reveal_strlit("@bob:foo");
    reveal_strlit("@charlie:foo");
    assert(at_bob.drop_last() =~= common);
    assert(at_charlie.drop_last() =~= common);
    assert(events.drop_last().drop_last() =~= common);
    assert(common.drop_last() =~= events.take(2));
    assert(events.take(2).drop_last() =~= events.take(1));
    assert(events.take(1).drop_last() =~= seq![]);
    let bob = (events[3].kind, events[3].state_key->0);
    let charlie = (events[4].kind, events[4].state_key->0);
    assert("@bob:foo"@[1] == 'b' && "@charlie:foo"@[1] == 'c' && "@alice:foo"@[1] == 'a');
    reveal_with_fuel(state_after, 5);
    let keys = |i: int| (events[i].kind, events[i].state_key->0);
    assert(state_after(common) =~= Map::empty().insert(keys(0), events[0].event_id).insert(
        keys(1),
        events[1].event_id,
    ).insert(keys(2), events[2].event_id));
    assert(events[0].state_key->0.len() == 0);
    assert(events[2].state_key->0.len() == 0);
    assert(bob.1[1] == 'b');
    assert(events[1].state_key->0[1] == 'a');
    assert(!state_after(common).contains_key(bob));
    assert(state_after(events) =~= state_after(at_bob).union_prefer_right(state_after(at_charlie)));
}

/// The events that `state_after` hands out are among `events`.
pub(crate) proof fn state_holds_ids_of_events(events: Seq<PduView>)
    ensures
        forall|id: Seq<char>| #[trigger]
            state_after(events).values().contains(id) ==> is_id_of_one(events, id),
    decreases events.len(),
{
    if events.len() > 0 {
        let fewer = events.drop_last();
        state_holds_ids_of_events(fewer);
        assert forall|id: Seq<char>| #[trigger]
            state_after(events).values().contains(id) implies is_id_of_one(events, id) by {
            let key = choose|key: StateKeyView| #[trigger]
                state_after(events).contains_key(key) && state_after(events)[key] == id;
            let last = events.last();
            if key == (last.kind, last.state_key->0) {
                assert(events[events.len() - 1].event_id == id);
            } else {
                assert(state_after(fewer).contains_key(key) && state_after(fewer)[key] == id);
                assert(state_after(fewer).values().contains(id));
                let j = choose|j: int| 0 <= j < fewer.len() && (#[trigger] fewer[j]).event_id == id;
                assert(events[j].event_id == id);
            }
        }
    }
}

/// The events of the fork know their auth events.
pub(crate) proof fn shallow_events_know_their_auth_events(ts: u64)
    ensures
        know_their_auth_events(shallow_events(ts)),
{
    let events = shallow_events(ts);
    assert(events[0].event_id == full_event_id("CREATE"@));
    assert(events[1].event_id == full_event_id("IMA"@));
    assert(events[2].event_id == full_event_id("IJR"@));
    assert(is_id_of_one(events, full_event_id("CREATE"@)));
    assert(is_id_of_one(events, full_event_id("IMA"@)));
    assert(is_id_of_one(events, full_event_id("IJR"@)));
    assert forall|i: int, k: int|
        0 <= i < events.len() && 0 <= k < events[i].auth_events.len() implies is_id_of_one(
        events,
        #[trigger] events[i].auth_events[k],
    ) by {
        let auth = events[i].auth_events[k];
        assert(auth == full_event_id("CREATE"@) || auth == full_event_id("IMA"@) || auth
            == full_event_id("IJR"@));
    }
}

/// The initial events and those of the ban know their auth events.
pub(crate) proof fn deeper_events_know_their_auth_events(ts: u64)
    ensures
        know_their_auth_events(initial_events(ts) + ban_events((ts + 8) as u64)),
{
    let events = initial_events(ts) + ban_events((ts + 8) as u64);
    assert(events[0].event_id == full_event_id("CREATE"@));
    assert(events[1].event_id == full_event_id("IMA"@));
    assert(events[2].event_id == full_event_id("IPOWER"@));
    assert(events[3].event_id == full_event_id("IJR"@));
    assert(events[8].event_id == full_event_id("PA"@));
    assert(events[9].event_id == full_event_id("PB"@));
    assert(is_id_of_one(events, full_event_id("CREATE"@)));
    assert(is_id_of_one(events, full_event_id("IMA"@)));
    assert(is_id_of_one(events, full_event_id("IPOWER"@)));
    assert(is_id_of_one(events, full_event_id("IJR"@)));
    assert(is_id_of_one(events, full_event_id("PA"@)));
    assert(is_id_of_one(events, full_event_id("PB"@)));
    assert forall|i: int, k: int|
        0 <= i < events.len() && 0 <= k < events[i].auth_events.len() implies is_id_of_one(
        events,
        #[trigger] events[i].auth_events[k],
    ) by {
        let auth = events[i].auth_events[k];
        assert(auth == full_event_id("CREATE"@) || auth == full_event_id("IMA"@) || auth
            == full_event_id("IPOWER"@) || auth == full_event_id("IJR"@) || auth == full_event_id(
            "PA"@,
        ) || auth == full_event_id("PB"@));
    }
}

} // verus!
