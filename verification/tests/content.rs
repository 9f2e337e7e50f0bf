use tuwunel::content::member_content_ban;
use tuwunel::content::member_content_join;
use tuwunel::event::reserve;
use tuwunel::event::to_pdu_event;
use tuwunel::event::try_pdu_event;
use tuwunel::event::Clock;
use tuwunel::event::Pdu;
use tuwunel::event::MAX_TIMESTAMP;

fn clock_at(counter: u64, count: u64) -> Clock {
    reserve(counter, count).unwrap().0
}

fn event_of(kind: &str) -> Pdu {
    let mut clock = clock_at(0, 1);
    to_pdu_event(&mut clock, "A", "@alice:foo", kind, None, "{}".to_owned(), &[], &[])
}

#[test]
fn member_contents_say_the_membership_only() {
    assert_eq!(member_content_ban(), r#"{"membership":"ban"}"#);
    assert_eq!(member_content_join(), r#"{"membership":"join"}"#);
}

#[test]
fn event_of_any_type_is_made() {
    assert_eq!(event_of("m.room.create").kind, "m.room.create");
    assert_eq!(event_of("org.example.custom").kind, "org.example.custom");
}

#[test]
fn event_has_the_given_fields() {
    let mut clock = clock_at(41, 3);
    let event = to_pdu_event(
        &mut clock,
        "MB",
        "@alice:foo",
        "m.room.member",
        Some("@ella:foo"),
        member_content_ban(),
        &["CREATE", "$IMA:foo"],
        &["PA"],
    );
    assert_eq!(event.event_id, "$MB:foo");
    assert_eq!(event.room_id, "!test:foo");
    assert_eq!(event.sender, "@alice:foo");
    assert_eq!(event.origin_server_ts, 41);
    assert_eq!(event.kind, "m.room.member");
    assert_eq!(event.content, r#"{"membership":"ban"}"#);
    assert_eq!(event.state_key, Some("@ella:foo".to_owned()));
    assert_eq!(event.auth_events, ["$CREATE:foo", "$IMA:foo"]);
    assert_eq!(event.prev_events, ["$PA:foo"]);
    assert_eq!(event.depth, 0);
    assert_eq!(event.redacts, None);
    assert_eq!(event.unsigned, None);
    assert_eq!(event.hashes.sha256, "");
    assert_eq!(event.origin, None);
    assert_eq!(event.signatures, None);
    assert_eq!(clock.stamps_left(), 2);
    assert_eq!(clock.tick(), 42);
}

#[test]
fn each_event_has_a_stamp_of_its_own() {
    let mut clock = clock_at(0, 5);
    assert_eq!(clock.tick(), 0);
    assert_eq!(clock.tick(), 1);
    let kind = "m.room.topic";
    let mut stamps = vec![];
    for _ in 0..3 {
        let event = to_pdu_event(&mut clock, "A", "@bob:foo", kind, None, "{}".to_owned(), &[], &[]);
        stamps.push(event.origin_server_ts);
    }
    assert_eq!(stamps, [2, 3, 4]);
    let mut last = clock_at(MAX_TIMESTAMP, 1);
    assert_eq!(last.tick(), 9_007_199_254_740_991);
}

#[test]
fn event_with_a_bad_id_is_not_made() {
    let mut clock = clock_at(0, 2);
    let kind = "m.room.topic";
    let none = try_pdu_event(&mut clock, "a$b", "@bob:foo", kind, None, "{}".to_owned(), &[], &[]);
    assert!(none.is_none());
    let none = try_pdu_event(&mut clock, "A", "@bob:foo", kind, None, "{}".to_owned(), &["x$"], &[]);
    assert!(none.is_none());
    let none = try_pdu_event(&mut clock, "A", "@bob:foo", kind, None, "{}".to_owned(), &[], &["B", "x$"]);
    assert!(none.is_none());
    assert_eq!(clock.stamps_left(), 2);
    let some = try_pdu_event(&mut clock, "A", "@bob:foo", kind, None, "{}".to_owned(), &["B"], &["C"]);
    assert_eq!(some.unwrap().event_id, "$A:foo");
    assert_eq!(clock.stamps_left(), 1);
}

#[test]
fn copy_of_an_event_says_the_same() {
    let event = event_of("m.room.topic");
    let copy = event.clone();
    assert_eq!(copy.event_id, event.event_id);
    assert_eq!(copy.kind, event.kind);
    assert_eq!(copy.content, event.content);
    assert_eq!(copy.state_key, event.state_key);
}

#[test]
fn clocks_of_one_counter_have_no_stamp_in_common() {
    let (mut first, counter) = reserve(7, 2).unwrap();
    let (mut second, counter) = reserve(counter, 3).unwrap();
    assert_eq!(counter, 12);
    let mut stamps = vec![second.tick(), first.tick(), second.tick(), first.tick(), second.tick()];
    assert_eq!(stamps, [9, 7, 10, 8, 11]);
    stamps.sort();
    stamps.dedup();
    assert_eq!(stamps.len(), 5);
    assert_eq!(first.stamps_left(), 0);
}

#[test]
fn stamps_that_cannot_be_carried_are_not_reserved() {
    assert!(reserve(MAX_TIMESTAMP, 2).is_none());
    assert!(reserve(u64::MAX, 1).is_none());
    assert!(reserve(1, u64::MAX).is_none());
    let (clock, counter) = reserve(MAX_TIMESTAMP + 1, 0).unwrap();
    assert_eq!(clock.stamps_left(), 0);
    assert_eq!(counter, MAX_TIMESTAMP + 1);
}
