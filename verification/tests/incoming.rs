use std::collections::HashMap;

use tuwunel::collections::IdSet;
use tuwunel::collections::StateMap;
use tuwunel::error::Error;
use tuwunel::incoming::degree_one::state_at_incoming_degree_one;
use tuwunel::incoming::degree_one::DegreeOneReply;
use tuwunel::incoming::degree_one::DegreeOneRequest;
use tuwunel::incoming::fork::state_at_incoming_fork;
use tuwunel::incoming::fork::ForkReply;
use tuwunel::incoming::fork::ForkRequest;
use tuwunel::incoming::resolved::state_at_incoming_resolved;
use tuwunel::incoming::resolved::ResolvedReply;
use tuwunel::incoming::resolved::ResolvedRequest;
use tuwunel::incoming::resolved::ResolvedSearch;
use tuwunel::incoming::PrevEvent;

fn member_event() -> PrevEvent {
    PrevEvent {
        event_id: "$M".to_owned(),
        kind: "m.room.member".to_owned(),
        state_key: Some("@bob:foo".to_owned()),
    }
}

fn message_event() -> PrevEvent {
    PrevEvent { event_id: "$T".to_owned(), kind: "m.room.message".to_owned(), state_key: None }
}

fn pairs() -> Vec<(u64, String)> {
    vec![(1, "$A".to_owned()), (2, "$B".to_owned())]
}

fn state(pairs: &[(u64, &str)]) -> HashMap<u64, String> {
    pairs.iter().map(|(key, id)| (*key, (*id).to_owned())).collect()
}

fn after_hash(reply: Option<u64>) -> DegreeOneRequest {
    let (search, request) = state_at_incoming_degree_one(&vec!["$P".to_owned()]);
    assert!(matches!(request, DegreeOneRequest::ShortStateHash { event_id } if event_id == "$P"));
    search.step(DegreeOneReply::ShortStateHash(reply)).1
}

fn degree_one(event: Result<PrevEvent, String>) -> DegreeOneRequest {
    let (search, _) = state_at_incoming_degree_one(&vec!["$P".to_owned()]);
    let (search, _) = search.step(DegreeOneReply::ShortStateHash(Some(7)));
    let (search, request) = search.step(DegreeOneReply::EventAndState(event, pairs()));
    match request {
        DegreeOneRequest::ShortStateKey { event_type, state_key } => {
            assert_eq!(event_type, "m.room.member");
            assert_eq!(state_key, "@bob:foo");
            search.step(DegreeOneReply::ShortStateKey(2)).1
        },
        request => request,
    }
}

fn resolving() -> ResolvedSearch {
    let prev_events = vec!["$P".to_owned(), "$Q".to_owned()];
    let (search, request) = state_at_incoming_resolved(prev_events, "!test:foo", "6");
    match request {
        ResolvedRequest::Extremities { prev_events } => assert_eq!(prev_events, ["$P", "$Q"]),
        _ => panic!("unexpected request"),
    }
    search
}

fn forking() -> ResolvedSearch {
    let found = vec![(Some(10), Some(member_event())), (Some(11), Some(message_event()))];
    resolving().step(ResolvedReply::Extremities(found)).0
}

fn fork_of(id: &str) -> (StateMap, IdSet) {
    let mut state = StateMap::new();
    state.insert("m.room.topic".to_owned(), "".to_owned(), id.to_owned());
    let mut chain = IdSet::new();
    chain.insert(id.to_owned());
    (state, chain)
}

#[test]
fn state_of_an_unknown_event_is_unknown() {
    assert!(matches!(after_hash(None), DegreeOneRequest::Finish(Ok(None))));
}

#[test]
fn event_and_state_are_asked_for_together() {
    match after_hash(Some(7)) {
        DegreeOneRequest::EventAndState { event_id, sstatehash } => {
            assert_eq!(event_id, "$P");
            assert_eq!(sstatehash, 7);
        },
        _ => panic!("unexpected request"),
    }
}

#[test]
fn state_event_is_put_into_the_state() {
    match degree_one(Ok(member_event())) {
        DegreeOneRequest::Finish(result) => {
            assert_eq!(result, Ok(Some(state(&[(1, "$A"), (2, "$M")]))));
        },
        _ => panic!("unexpected request"),
    }
}

#[test]
fn other_event_leaves_the_state() {
    match degree_one(Ok(message_event())) {
        DegreeOneRequest::Finish(result) => {
            assert_eq!(result, Ok(Some(state(&[(1, "$A"), (2, "$B")]))));
        },
        _ => panic!("unexpected request"),
    }
}

#[test]
fn missing_event_with_a_known_state_is_a_database_error() {
    match degree_one(Err("gone".to_owned())) {
        DegreeOneRequest::Finish(result) => {
            let message = "Could not find prev_event, but we know the state: gone".to_owned();
            assert_eq!(result, Err(Error::Database(message)));
        },
        _ => panic!("unexpected request"),
    }
}

#[test]
fn fork_has_the_state_and_the_auth_chain_after_the_event() {
    let (search, request) = state_at_incoming_fork("!test:foo", 5, member_event());
    assert!(matches!(request, ForkRequest::FullState { sstatehash: 5 }));
    let (search, request) = search.step(ForkReply::FullState(pairs()));
    match request {
        ForkRequest::ShortStateKey { event_type, state_key } => {
            assert_eq!((event_type.as_str(), state_key.as_str()), ("m.room.member", "@bob:foo"));
        },
        _ => panic!("unexpected request"),
    }
    let (search, request) = search.step(ForkReply::ShortStateKey(3));
    let keys = match request {
        ForkRequest::Parts { room_id, mut starts, shortstatekeys } => {
            assert_eq!(room_id, "!test:foo");
            starts.sort();
            assert_eq!(starts, ["$A", "$B", "$M"]);
            shortstatekeys
        },
        _ => panic!("unexpected request"),
    };
    let named = keys
        .iter()
        .map(|key| if *key == 2 { None } else { Some(("kind".to_owned(), key.to_string())) })
        .collect();
    let chain = vec!["$M".to_owned(), "$C".to_owned(), "$M".to_owned()];
    let (_, request) = search.step(ForkReply::Parts(named, Ok(chain)));
    match request {
        ForkRequest::Finish(Ok((state, chain))) => {
            assert_eq!(state.entries().len(), 2);
            assert_eq!(state.get("kind", "1"), Some(&"$A".to_owned()));
            assert_eq!(state.get("kind", "3"), Some(&"$M".to_owned()));
            assert_eq!(chain.ids(), &["$M", "$C"]);
        },
        _ => panic!("unexpected request"),
    }
}

#[test]
fn fork_fails_where_its_auth_chain_does() {
    let (search, _) = state_at_incoming_fork("!test:foo", 5, message_event());
    let (search, request) = search.step(ForkReply::FullState(vec![(1, "$A".to_owned())]));
    match request {
        ForkRequest::Parts { starts, shortstatekeys, .. } => {
            assert_eq!(starts, ["$A"]);
            assert_eq!(shortstatekeys, [1]);
        },
        _ => panic!("unexpected request"),
    }
    let error = Error::NotFound("$C".to_owned());
    match search.step(ForkReply::Parts(vec![], Err(error))).1 {
        ForkRequest::Finish(Err(error)) => assert_eq!(error, Error::NotFound("$C".to_owned())),
        _ => panic!("unexpected request"),
    }
}

#[test]
fn state_is_unknown_where_an_extremity_is() {
    for missing in [(None, None), (None, Some(member_event())), (Some(11), None)] {
        let found = vec![(Some(10), Some(member_event())), missing];
        let request = resolving().step(ResolvedReply::Extremities(found)).1;
        assert!(matches!(request, ResolvedRequest::Finish(Ok(None))));
    }
}

#[test]
fn extremities_with_the_same_state_are_one_fork() {
    let prev_events = vec!["$P".to_owned(), "$Q".to_owned(), "$R".to_owned()];
    let search = state_at_incoming_resolved(prev_events, "!test:foo", "6").0;
    let found = vec![
        (Some(10), Some(member_event())),
        (Some(11), Some(member_event())),
        (Some(10), Some(message_event())),
    ];
    match search.step(ResolvedReply::Extremities(found)).1 {
        ResolvedRequest::Forks { room_id, extremities } => {
            assert_eq!(room_id, "!test:foo");
            assert_eq!(extremities.len(), 2);
            for (hash, event) in extremities {
                assert_eq!(event.event_id, if hash == 10 { "$T" } else { "$M" });
            }
        },
        _ => panic!("unexpected request"),
    }
}

#[test]
fn search_fails_with_the_first_fork_that_fails() {
    let forks = vec![
        Ok(fork_of("$A")),
        Err(Error::Database("first".to_owned())),
        Err(Error::Database("second".to_owned())),
    ];
    match forking().step(ResolvedReply::Forks(forks)).1 {
        ResolvedRequest::Finish(result) => {
            assert_eq!(result, Err(Error::Database("first".to_owned())));
        },
        _ => panic!("unexpected request"),
    }
}

#[test]
fn forks_are_resolved_by_the_room_version() {
    let forks = vec![Ok(fork_of("$A")), Ok(fork_of("$B"))];
    match forking().step(ResolvedReply::Forks(forks)).1 {
        ResolvedRequest::Resolution { room_version, fork_states, auth_chain_sets } => {
            assert_eq!(room_version, "6");
            assert_eq!(fork_states.len(), 2);
            assert_eq!(fork_states[1].get("m.room.topic", ""), Some(&"$B".to_owned()));
            assert_eq!(auth_chain_sets[0].ids(), &["$A"]);
        },
        _ => panic!("unexpected request"),
    }
}

#[test]
fn state_is_unknown_where_it_is_not_resolved() {
    let forks = vec![Ok(fork_of("$A")), Ok(fork_of("$B"))];
    let search = forking().step(ResolvedReply::Forks(forks)).0;
    let request = search.step(ResolvedReply::Resolution(None)).1;
    assert!(matches!(request, ResolvedRequest::Finish(Ok(None))));
}

#[test]
fn resolved_state_is_kept_by_short_state_keys() {
    let forks = vec![Ok(fork_of("$A")), Ok(fork_of("$B"))];
    let search = forking().step(ResolvedReply::Forks(forks)).0;
    let mut resolved = StateMap::new();
    resolved.insert("m.room.topic".to_owned(), "".to_owned(), "$A".to_owned());
    resolved.insert("m.room.member".to_owned(), "@bob:foo".to_owned(), "$M".to_owned());
    let (search, request) = search.step(ResolvedReply::Resolution(Some(resolved)));
    let keys = match request {
        ResolvedRequest::ShortStateKeys { keys } => keys,
        _ => panic!("unexpected request"),
    };
    let short = keys.iter().map(|(kind, _)| if kind == "m.room.topic" { 1 } else { 2 }).collect();
    match search.step(ResolvedReply::ShortStateKeys(short)).1 {
        ResolvedRequest::Finish(result) => {
            assert_eq!(result, Ok(Some(state(&[(1, "$A"), (2, "$M")]))));
        },
        _ => panic!("unexpected request"),
    }
}
