use tuwunel::collections::IdMap;
use tuwunel::collections::IdSet;
use tuwunel::collections::StateMap;
use tuwunel::error::Error;
use tuwunel::event::reserve;
use tuwunel::event::to_pdu_event;
use tuwunel::event::Clock;
use tuwunel::identifiers::room_id;
use tuwunel::resolution::lexico_topo_sort;
use tuwunel::resolution::resolution_shallow_auth_chain;
use tuwunel::resolution::resolve_deeper_event_set;
use tuwunel::resolution::sort_key;
use tuwunel::samples::BAN_STATE_SET;
use tuwunel::samples::INITIAL_EVENTS;
use tuwunel::store::TestStore;

fn clock_at(counter: u64, count: u64) -> Clock {
    reserve(counter, count).unwrap().0
}

fn sorted(ids: &IdSet) -> Vec<String> {
    let mut ids = ids.ids().clone();
    ids.sort();
    ids
}

fn names(ids: &[&str]) -> Vec<String> {
    ids.iter().map(|id| format!("${id}:foo")).collect()
}

fn shallow_store() -> TestStore {
    let mut store = TestStore { events: IdMap::new() };
    let mut clock = clock_at(0, 12);
    store.set_up(&mut clock);
    store
}

fn state_id(state: &StateMap, event_type: &str, state_key: &str) -> String {
    state.get(event_type, state_key).unwrap().clone()
}

#[test]
fn events_are_found_by_their_ids() {
    let store = shallow_store();
    match store.get_event(room_id(), "$IMB:foo") {
        Ok(event) => assert_eq!(event.sender, "@bob:foo"),
        Err(error) => panic!("{error:?}"),
    }
    assert_eq!(store.fetch("$IMC:foo").unwrap().sender, "@charlie:foo");
    assert!(store.fetch("$IME:foo").is_none());
    assert!(store.has_event("$CREATE:foo"));
    assert!(!store.has_event("CREATE"));
}

#[test]
fn missing_event_is_named() {
    match shallow_store().get_event(room_id(), "$IME:foo") {
        Ok(_) => panic!("found"),
        Err(error) => assert_eq!(error, Error::NotFound("$IME:foo not found".to_owned())),
    }
}

#[test]
fn events_come_in_the_order_of_their_ids() {
    let store = shallow_store();
    match store.get_events(room_id(), &names(&["IMC", "CREATE", "IMC"])) {
        Ok(events) => {
            let ids: Vec<String> = events.iter().map(|event| event.event_id.clone()).collect();
            assert_eq!(ids, ["$IMC:foo", "$CREATE:foo", "$IMC:foo"]);
        },
        Err(error) => panic!("{error:?}"),
    }
    match store.get_events(room_id(), &names(&["IMA", "X", "Y"])) {
        Ok(_) => panic!("found"),
        Err(error) => assert_eq!(error, Error::NotFound("$X:foo not found".to_owned())),
    }
}

#[test]
fn auth_chain_holds_the_event_and_all_that_authorise_it() {
    let store = shallow_store();
    let chain = store.auth_event_ids(room_id(), names(&["IMB"]));
    match chain {
        Ok(chain) => assert_eq!(sorted(&chain), ["$CREATE:foo", "$IJR:foo", "$IMA:foo", "$IMB:foo"]),
        Err(error) => panic!("{error:?}"),
    }
    match store.auth_event_ids(room_id(), vec![]) {
        Ok(chain) => assert_eq!(chain.len(), 0),
        Err(error) => panic!("{error:?}"),
    }
}

#[test]
fn auth_chain_of_an_auth_chain_is_itself() {
    let store = shallow_store();
    let Ok(chain) = store.auth_event_ids(room_id(), names(&["IMC", "IMA"])) else {
        panic!("incomplete");
    };
    let Ok(again) = store.auth_event_ids(room_id(), chain.ids().clone()) else {
        panic!("incomplete");
    };
    assert_eq!(sorted(&chain), sorted(&again));
}

#[test]
fn auth_chain_of_two_is_both_auth_chains() {
    let store = shallow_store();
    let Ok(both) = store.auth_event_ids(room_id(), names(&["IMC", "IMB"])) else {
        panic!("incomplete");
    };
    assert_eq!(
        sorted(&both),
        ["$CREATE:foo", "$IJR:foo", "$IMA:foo", "$IMB:foo", "$IMC:foo"],
    );
}

#[test]
fn auth_chain_with_a_gap_names_the_first_event_that_the_walk_misses() {
    let mut clock = clock_at(0, 12);
    let mut store = TestStore { events: IdMap::new() };
    let kind = "m.room.topic";
    let a = to_pdu_event(&mut clock, "A", "@bob:foo", kind, None, "{}".to_owned(), &["P", "Q"], &[]);
    let b = to_pdu_event(&mut clock, "B", "@bob:foo", kind, None, "{}".to_owned(), &["R"], &[]);
    store.events.insert("$A:foo".to_owned(), a);
    store.events.insert("$B:foo".to_owned(), b);
    match store.auth_event_ids(room_id(), names(&["B", "A"])) {
        Ok(_) => panic!("complete"),
        Err(error) => assert_eq!(error, Error::NotFound("$Q:foo not found".to_owned())),
    }
    match store.auth_event_ids(room_id(), names(&["A", "B"])) {
        Ok(_) => panic!("complete"),
        Err(error) => assert_eq!(error, Error::NotFound("$R:foo not found".to_owned())),
    }
}

#[test]
fn difference_holds_what_not_all_chains_hold() {
    let store = shallow_store();
    match store.auth_chain_diff(room_id(), vec![names(&["IMB"]), names(&["IMC"])]) {
        Ok(ids) => assert_eq!(ids, ["$IMB:foo", "$IMC:foo"]),
        Err(error) => panic!("{error:?}"),
    }
    let lists = vec![names(&["IMB"]), names(&["IMB"]), names(&["IJR"])];
    match store.auth_chain_diff(room_id(), lists) {
        Ok(ids) => assert_eq!(ids, ["$IMB:foo", "$IMB:foo"]),
        Err(error) => panic!("{error:?}"),
    }
}

#[test]
fn ids_of_an_earlier_chain_come_first() {
    let store = shallow_store();
    let lists = vec![names(&["IMB"]), names(&["IMB"]), names(&["IMC"])];
    match store.auth_chain_diff(room_id(), lists) {
        Ok(ids) => assert_eq!(ids, ["$IMB:foo", "$IMB:foo", "$IMC:foo"]),
        Err(error) => panic!("{error:?}"),
    }
    let lists = vec![names(&["IMC"]), names(&["IMB"]), names(&["IMB"])];
    match store.auth_chain_diff(room_id(), lists) {
        Ok(ids) => assert_eq!(ids, ["$IMC:foo", "$IMB:foo", "$IMB:foo"]),
        Err(error) => panic!("{error:?}"),
    }
}

#[test]
fn equal_chains_do_not_differ() {
    let store = shallow_store();
    for lists in [
        vec![],
        vec![names(&["IMB"])],
        vec![names(&["IMB"]), names(&["IMB", "IMA"])],
    ] {
        match store.auth_chain_diff(room_id(), lists) {
            Ok(ids) => assert!(ids.is_empty()),
            Err(error) => panic!("{error:?}"),
        }
    }
}

#[test]
fn difference_fails_with_the_first_chain_that_fails() {
    let store = shallow_store();
    let lists = vec![names(&["IMB"]), names(&["X"]), names(&["Y"])];
    match store.auth_chain_diff(room_id(), lists) {
        Ok(_) => panic!("complete"),
        Err(error) => assert_eq!(error, Error::NotFound("$X:foo not found".to_owned())),
    }
}

#[test]
fn initial_events_have_their_contents() {
    let mut clock = clock_at(0, 12);
    let events = INITIAL_EVENTS(&mut clock);
    assert_eq!(clock.stamps_left(), 4);
    for (id, kind) in [
        ("$CREATE:foo", "m.room.create"),
        ("$IMA:foo", "m.room.member"),
        ("$IPOWER:foo", "m.room.power_levels"),
        ("$IJR:foo", "m.room.join_rules"),
        ("$START:foo", "m.room.topic"),
    ] {
        assert_eq!(events.get(id).unwrap().kind, kind);
    }
    assert_eq!(events.get("$CREATE:foo").unwrap().content, r#"{"creator":"@alice:foo"}"#);
    assert_eq!(events.get("$IMA:foo").unwrap().content, r#"{"membership":"join"}"#);
    assert_eq!(events.get("$IPOWER:foo").unwrap().content, r#"{"users":{"@alice:foo":100}}"#);
    assert_eq!(events.get("$IJR:foo").unwrap().content, r#"{"join_rule":"public"}"#);
    assert_eq!(events.get("$START:foo").unwrap().content, "{}");
    assert_eq!(events.get("$END:foo").unwrap().origin_server_ts, 7);
    assert_eq!(events.get("$IMC:foo").unwrap().prev_events, ["$IMB:foo"]);
    assert_eq!(
        events.get("$IMB:foo").unwrap().auth_events,
        ["$CREATE:foo", "$IJR:foo", "$IPOWER:foo"],
    );
    assert!(events.get("$PA:foo").is_none());
}

#[test]
fn ban_events_have_their_contents() {
    let mut clock = clock_at(8, 4);
    let events = BAN_STATE_SET(&mut clock);
    assert_eq!(clock.stamps_left(), 0);
    assert_eq!(
        events.get("$PA:foo").unwrap().content,
        r#"{"users":{"@alice:foo":100,"@bob:foo":50}}"#,
    );
    assert_eq!(events.get("$PB:foo").unwrap().prev_events, ["$END:foo"]);
    assert_eq!(events.get("$MB:foo").unwrap().content, r#"{"membership":"ban"}"#);
    assert_eq!(events.get("$MB:foo").unwrap().state_key, Some("@ella:foo".to_owned()));
    assert_eq!(events.get("$IME:foo").unwrap().origin_server_ts, 11);
}

#[test]
fn expected_state_holds_what_holds_on_either_side() {
    let mut store = TestStore { events: IdMap::new() };
    let mut clock = clock_at(0, 12);
    let (at_bob, at_charlie, expected) = store.set_up(&mut clock);
    assert_eq!(clock.stamps_left(), 7);
    assert_eq!(at_bob.entries().len(), 4);
    assert_eq!(at_charlie.entries().len(), 4);
    assert_eq!(expected.entries().len(), 5);
    assert_eq!(state_id(&at_bob, "m.room.member", "@bob:foo"), "$IMB:foo");
    assert!(at_bob.get("m.room.member", "@charlie:foo").is_none());
    assert_eq!(state_id(&at_charlie, "m.room.member", "@charlie:foo"), "$IMC:foo");
    assert_eq!(state_id(&expected, "m.room.create", ""), "$CREATE:foo");
    assert_eq!(state_id(&expected, "m.room.member", "@alice:foo"), "$IMA:foo");
    assert_eq!(state_id(&expected, "m.room.join_rules", ""), "$IJR:foo");
    assert_eq!(state_id(&expected, "m.room.member", "@bob:foo"), "$IMB:foo");
    assert_eq!(state_id(&expected, "m.room.member", "@charlie:foo"), "$IMC:foo");
}

#[test]
fn shallow_fork_has_its_auth_chains() {
    let fork = resolution_shallow_auth_chain(&mut clock_at(0, 5));
    assert_eq!(fork.room_version, "6");
    assert_eq!(fork.state_sets.len(), 2);
    assert_eq!(fork.auth_chain_sets.len(), 2);
    assert_eq!(
        sorted(&fork.auth_chain_sets[0]),
        ["$CREATE:foo", "$IJR:foo", "$IMA:foo", "$IMB:foo"],
    );
    assert_eq!(
        sorted(&fork.auth_chain_sets[1]),
        ["$CREATE:foo", "$IJR:foo", "$IMA:foo", "$IMC:foo"],
    );
}

#[test]
fn deeper_fork_has_a_ban_on_one_side() {
    let mut clock = clock_at(0, 12);
    let fork = resolve_deeper_event_set(&mut clock);
    assert_eq!(clock.stamps_left(), 0);
    assert_eq!(fork.room_version, "6");
    assert_eq!(state_id(&fork.state_sets[0], "m.room.member", "@ella:foo"), "$MB:foo");
    assert_eq!(state_id(&fork.state_sets[1], "m.room.member", "@ella:foo"), "$IME:foo");
    assert_eq!(state_id(&fork.state_sets[0], "m.room.power_levels", ""), "$PA:foo");
    assert_eq!(
        sorted(&fork.auth_chain_sets[0]),
        names(&["CREATE", "IJR", "IMA", "IMB", "IMC", "IPOWER", "MB", "PA", "PB"]),
    );
    assert_eq!(
        sorted(&fork.auth_chain_sets[1]),
        names(&["CREATE", "IJR", "IMA", "IMB", "IMC", "IME", "IPOWER", "PA"]),
    );
}

#[test]
fn four_events_of_the_graph_come_after_o() {
    let graph = lexico_topo_sort();
    assert_eq!(sorted(graph.get("$l:foo").unwrap()), ["$o:foo"]);
    assert_eq!(sorted(graph.get("$m:foo").unwrap()), ["$n:foo", "$o:foo"]);
    assert_eq!(sorted(graph.get("$n:foo").unwrap()), ["$o:foo"]);
    assert_eq!(graph.get("$o:foo").unwrap().len(), 0);
    assert_eq!(sorted(graph.get("$p:foo").unwrap()), ["$o:foo"]);
    assert!(graph.get("$q:foo").is_none());
}

#[test]
fn events_of_the_graph_have_the_same_sort_key() {
    for id in ["$l:foo", "$m:foo", "$n:foo", "$o:foo", "$p:foo"] {
        assert_eq!(sort_key(id), (0, 0));
    }
}
