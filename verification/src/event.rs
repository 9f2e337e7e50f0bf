//! Room events, and the sample events of the room `!test:foo`.

use vstd::prelude::*;

use crate::collections::clone_texts;
use crate::identifiers::event_id;
use crate::identifiers::full_event_id;
use crate::identifiers::full_event_ids;
use crate::identifiers::is_event_id;
use crate::identifiers::names_event;
use crate::identifiers::room_id;
use crate::identifiers::try_event_id;

verus! {

/// The largest time stamp that an event can carry: the largest integer that JSON carries exactly.
pub const MAX_TIMESTAMP: u64 = 0x1f_ffff_ffff_ffff;

/// Stamps events, with the stamps that were reserved for it.
///
/// A process has one counter of stamps, and a clock comes from [`reserve`] alone: no two clocks
/// reserved from that counter have a stamp in common.
pub struct Clock {
    next: u64,
    end: u64,
}

/// The stamps that a [`Clock`] has left: `next` is the first of them and `end` comes after the last.
pub struct ClockView {
    pub next: u64,
    pub end: u64,
}

impl View for Clock {
    type V = ClockView;

    closed spec fn view(&self) -> ClockView {
        ClockView { next: self.next, end: self.end }
    }
}

impl ClockView {
    /// How many stamps are left.
    pub open spec fn remaining(self) -> int {
        self.end - self.next
    }

    /// What is left after `used` stamps more.
    pub open spec fn after(self, used: int) -> ClockView {
        ClockView { next: (self.next + used) as u64, end: self.end }
    }
}

/// `clock` was reserved from a counter that stood at `before` and stands at `after` since.
pub open spec fn is_reserved(clock: ClockView, before: u64, after: u64) -> bool {
    &&& before <= after
    &&& clock.next == before
    &&& clock.end == after
}

/// Reserves `count` stamps from a counter that stands at `counter`: the clock that gives them, and
/// where the counter stands then. `None` where a stamp among them could not be carried.
pub fn reserve(counter: u64, count: u64) -> (r: Option<(Clock, u64)>)
    ensures
        r is Some <==> counter + count <= MAX_TIMESTAMP + 1,
        r matches Some((clock, after)) ==> {
            &&& after == counter + count
            &&& is_reserved(clock@, counter, after)
        },
{
    if counter <= MAX_TIMESTAMP + 1 && count <= MAX_TIMESTAMP + 1 - counter {
        let after: u64 = counter + count;
        Some((Clock { next: counter, end: after }, after))
    } else {
        None
    }
}

impl Clock {
    /// No stamp is too large to be carried.
    #[verifier::type_invariant]
    spec fn inv(self) -> bool {
        self.next <= self.end <= MAX_TIMESTAMP + 1
    }

    /// How many stamps are left.
    pub fn stamps_left(&self) -> (r: u64)
        ensures
            r == self@.remaining(),
    {
        proof {
            use_type_invariant(self);
        }
        self.end - self.next
    }

    /// The stamp of the next event; the clock moves on.
    pub fn tick(&mut self) -> (r: u64)
        requires
            old(self)@.remaining() > 0,
        ensures
            r == old(self)@.next,
            r <= MAX_TIMESTAMP,
            final(self)@ == old(self)@.after(1),
    {
        proof {
            use_type_invariant(&*self);
        }
        let now = self.next;
        self.next = now + 1;
        now
    }
}

/// `event` was stamped by a clock that stood at `before` and at `after` then.
pub open spec fn is_stamped(event: PduView, before: ClockView, after: ClockView) -> bool {
    &&& before.remaining() > 0
    &&& event.origin_server_ts == before.next
    &&& after == before.after(1)
}

/// The events were stamped one after the other by one clock, which stood at `clocks`.
pub open spec fn are_stamped_in_turn(events: Seq<PduView>, clocks: Seq<ClockView>) -> bool {
    &&& clocks.len() == events.len() + 1
    &&& forall|i: int|
        0 <= i < events.len() ==> is_stamped(#[trigger] events[i], clocks[i], clocks[i + 1])
}

/// The events that one clock has stamped have stamps that were reserved for it, one after the other.
pub proof fn stamps_are_reserved(events: Seq<PduView>, clocks: Seq<ClockView>, place: int)
    requires
        are_stamped_in_turn(events, clocks),
        0 <= place < events.len(),
    ensures
        events[place].origin_server_ts == clocks[0].next + place,
        clocks[0].next <= events[place].origin_server_ts < clocks[0].end,
        clocks[place].end == clocks[0].end,
    decreases place,
{
    assert(is_stamped(events[place], clocks[place], clocks[place + 1]));
    if place > 0 {
        stamps_are_reserved(events, clocks, place - 1);
        assert(is_stamped(events[place - 1], clocks[place - 1], clocks[place]));
    }
}

/// Of two events that one clock has stamped, the earlier has the smaller stamp.
pub proof fn stamps_ascend(events: Seq<PduView>, clocks: Seq<ClockView>, earlier: int, later: int)
    requires
        are_stamped_in_turn(events, clocks),
        0 <= earlier < later < events.len(),
    ensures
        events[earlier].origin_server_ts < events[later].origin_server_ts,
{
    stamps_are_reserved(events, clocks, earlier);
    stamps_are_reserved(events, clocks, later);
}

/// The clocks were reserved one after the other from one counter, which stood at `counters`.
pub open spec fn are_reserved_in_turn(clocks: Seq<ClockView>, counters: Seq<u64>) -> bool {
    &&& counters.len() == clocks.len() + 1
    &&& forall|i: int|
        0 <= i < clocks.len() ==> is_reserved(#[trigger] clocks[i], counters[i], counters[i + 1])
}

/// A clock that was reserved before another has only smaller stamps.
proof fn reservations_ascend(
    reserved: Seq<ClockView>,
    counters: Seq<u64>,
    earlier: int,
    later: int,
)
    requires
        are_reserved_in_turn(reserved, counters),
        0 <= earlier < later < reserved.len(),
    ensures
        reserved[earlier].end <= reserved[later].next,
    decreases later - earlier,
{
    assert(is_reserved(reserved[earlier], counters[earlier], counters[earlier + 1]));
    assert(is_reserved(reserved[later], counters[later], counters[later + 1]));
    if earlier < later - 1 {
        reservations_ascend(reserved, counters, earlier, later - 1);
        assert(is_reserved(reserved[later - 1], counters[later - 1], counters[later]));
    }
}

/// Every event has a stamp of its own, whichever clocks stamped the events: of two clocks reserved
/// from one counter, whatever stands between their reservations and in whatever order they stamp,
/// every stamp of the one that was reserved earlier is smaller than every stamp of the other.
pub proof fn stamps_of_two_clocks_differ(
    reserved: Seq<ClockView>,
    counters: Seq<u64>,
    earlier: int,
    later: int,
    first: (Seq<PduView>, Seq<ClockView>),
    second: (Seq<PduView>, Seq<ClockView>),
    i: int,
    j: int,
)
    requires
        are_reserved_in_turn(reserved, counters),
        0 <= earlier < later < reserved.len(),
        are_stamped_in_turn(first.0, first.1),
        first.1[0] == reserved[earlier],
        0 <= i < first.0.len(),
        are_stamped_in_turn(second.0, second.1),
        second.1[0] == reserved[later],
        0 <= j < second.0.len(),
    ensures
        first.0[i].origin_server_ts < second.0[j].origin_server_ts,
{
    reservations_ascend(reserved, counters, earlier, later);
    stamps_are_reserved(first.0, first.1, i);
    stamps_are_reserved(second.0, second.1, j);
}

/// The content hash of an event.
pub struct EventHash {
    /// The unpadded base64 of the SHA-256 sum.
    pub sha256: String,
}

/// A room event as servers exchange it.
pub struct Pdu {
    pub event_id: String,
    pub room_id: String,
    pub sender: String,
    /// When the event was sent, in milliseconds since the Unix epoch.
    pub origin_server_ts: u64,
    pub kind: String,
    /// The JSON text of the content.
    pub content: String,
    pub state_key: Option<String>,
    pub prev_events: Vec<String>,
    pub depth: u64,
    pub auth_events: Vec<String>,
    pub redacts: Option<String>,
    /// The JSON text of the unsigned data.
    pub unsigned: Option<String>,
    pub hashes: EventHash,
    pub origin: Option<String>,
    /// The JSON text of the signatures.
    pub signatures: Option<String>,
}

/// What a [`Pdu`] says.
#[verifier::ext_equal]
pub struct PduView {
    pub event_id: Seq<char>,
    pub room_id: Seq<char>,
    pub sender: Seq<char>,
    pub origin_server_ts: u64,
    pub kind: Seq<char>,
    pub content: Seq<char>,
    pub state_key: Option<Seq<char>>,
    pub prev_events: Seq<Seq<char>>,
    pub depth: u64,
    pub auth_events: Seq<Seq<char>>,
    pub redacts: Option<Seq<char>>,
    pub unsigned: Option<Seq<char>>,
    pub sha256: Seq<char>,
    pub origin: Option<Seq<char>>,
    pub signatures: Option<Seq<char>>,
}

impl View for Pdu {
    type V = PduView;

    open spec fn view(&self) -> PduView {
        PduView {
            event_id: self.event_id@,
            room_id: self.room_id@,
            sender: self.sender@,
            origin_server_ts: self.origin_server_ts,
            kind: self.kind@,
            content: self.content@,
            state_key: self.state_key.deep_view(),
            prev_events: self.prev_events.deep_view(),
            depth: self.depth,
            auth_events: self.auth_events.deep_view(),
            redacts: self.redacts.deep_view(),
            unsigned: self.unsigned.deep_view(),
            sha256: self.hashes.sha256@,
            origin: self.origin.deep_view(),
            signatures: self.signatures.deep_view(),
        }
    }
}

/// A copy of an optional text.
pub fn clone_optional(text: &Option<String>) -> (r: Option<String>)
    ensures
        r.deep_view() == text.deep_view(),
{
    match text {
        Some(text) => Some(text.clone()),
        None => None,
    }
}

impl Clone for Pdu {
    fn clone(&self) -> (r: Self)
        ensures
            r@ == self@,
    {
        Pdu {
            event_id: self.event_id.clone(),
            room_id: self.room_id.clone(),
            sender: self.sender.clone(),
            origin_server_ts: self.origin_server_ts,
            kind: self.kind.clone(),
            content: self.content.clone(),
            state_key: clone_optional(&self.state_key),
            prev_events: clone_texts(&self.prev_events),
            depth: self.depth,
            auth_events: clone_texts(&self.auth_events),
            redacts: clone_optional(&self.redacts),
            unsigned: clone_optional(&self.unsigned),
            hashes: EventHash { sha256: self.hashes.sha256.clone() },
            origin: clone_optional(&self.origin),
            signatures: clone_optional(&self.signatures),
        }
    }
}

/// The event of the room `!test:foo` with these fields; the other fields are unset, and `id`,
/// `auth_events` and `prev_events` are written as [`full_event_id`] reads them.
pub open spec fn sample_event(
    ts: u64,
    id: Seq<char>,
    sender: Seq<char>,
    kind: Seq<char>,
    state_key: Option<Seq<char>>,
    content: Seq<char>,
    auth_events: Seq<Seq<char>>,
    prev_events: Seq<Seq<char>>,
) -> PduView {
    PduView {
        event_id: full_event_id(id),
        room_id: "!test:foo"@,
        sender,
        origin_server_ts: ts,
        kind,
        content,
        state_key,
        prev_events: full_event_ids(prev_events),
        depth: 0,
        auth_events: full_event_ids(auth_events),
        redacts: None,
        unsigned: None,
        sha256: seq![],
        origin: None,
        signatures: None,
    }
}

/// All of `ids` stand for event ids.
pub open spec fn name_events(ids: Seq<Seq<char>>) -> bool {
    forall|i: int| 0 <= i < ids.len() ==> names_event(#[trigger] ids[i])
}

/// The event ids that `ids` stand for.
fn event_ids(ids: &[&str]) -> (r: Vec<String>)
    requires
        name_events(ids.deep_view()),
    ensures
        r.deep_view() == full_event_ids(ids.deep_view()),
{
    let mut r: Vec<String> = Vec::new();
    for i in 0..ids.len()
        invariant
            name_events(ids.deep_view()),
            r.len() == i,
            forall|j: int|
                0 <= j < i ==> (#[trigger] r@[j])@ == full_event_id(ids.deep_view()[j]),
    {
        assert(names_event(ids.deep_view()[i as int]));
        r.push(event_id(ids[i]));
    }
    assert(r.deep_view() =~= full_event_ids(ids.deep_view()));
    r
}

/// Makes an event of the room `!test:foo`, stamped by `clock`. The ids have to stand for event
/// ids.
pub fn to_pdu_event(
    clock: &mut Clock,
    id: &str,
    sender: &str,
    ev_type: &str,
    state_key: Option<&str>,
    content: String,
    auth_events: &[&str],
    prev_events: &[&str],
) -> (r: Pdu)
    requires
        old(clock)@.remaining() > 0,
        names_event(id@),
        name_events(auth_events.deep_view()),
        name_events(prev_events.deep_view()),
    ensures
        is_stamped(r@, old(clock)@, final(clock)@),
        r@ == sample_event(
            old(clock)@.next,
            id@,
            sender@,
            ev_type@,
            state_key.deep_view(),
            content@,
            auth_events.deep_view(),
            prev_events.deep_view(),
        ),
{
    let ts = clock.tick();
    Pdu {
        event_id: event_id(id),
        room_id: room_id().to_owned(),
        sender: sender.to_owned(),
        origin_server_ts: ts,
        kind: ev_type.to_owned(),
        content,
        state_key: match state_key {
            Some(state_key) => Some(state_key.to_owned()),
            None => None,
        },
        prev_events: event_ids(prev_events),
        depth: 0,
        auth_events: event_ids(auth_events),
        redacts: None,
        unsigned: None,
        hashes: EventHash { sha256: String::new() },
        origin: None,
        signatures: None,
    }
}

/// All of `ids` are read as event ids.
pub open spec fn are_event_ids(ids: Seq<Seq<char>>) -> bool {
    forall|i: int| 0 <= i < ids.len() ==> is_event_id(full_event_id(#[trigger] ids[i]))
}

/// Whether all of `ids` are read as event ids.
fn check_event_ids(ids: &[&str]) -> (r: bool)
    ensures
        r == are_event_ids(ids.deep_view()),
{
    for i in 0..ids.len()
        invariant
            forall|j: int|
                0 <= j < i ==> is_event_id(full_event_id(#[trigger] ids.deep_view()[j])),
    {
        assert(ids.deep_view()[i as int] == ids@[i as int]@);
        if try_event_id(ids[i]).is_none() {
            return false;
        }
    }
    true
}

/// Makes an event of the room `!test:foo`, stamped by `clock`, where all the ids are read as event
/// ids; otherwise there is no event, and the clock stays.
pub fn try_pdu_event(
    clock: &mut Clock,
    id: &str,
    sender: &str,
    ev_type: &str,
    state_key: Option<&str>,
    content: String,
    auth_events: &[&str],
    prev_events: &[&str],
) -> (r: Option<Pdu>)
    requires
        old(clock)@.remaining() > 0,
    ensures
        r is Some <==> is_event_id(full_event_id(id@)) && are_event_ids(auth_events.deep_view())
            && are_event_ids(prev_events.deep_view()),
        r is None ==> *final(clock) == *old(clock),
        r matches Some(event) ==> {
            &&& is_stamped(event@, old(clock)@, final(clock)@)
            &&& event@ == sample_event(
                old(clock)@.next,
                id@,
                sender@,
                ev_type@,
                state_key.deep_view(),
                content@,
                auth_events.deep_view(),
                prev_events.deep_view(),
            )
        },
{
    if try_event_id(id).is_some() && check_event_ids(auth_events) && check_event_ids(prev_events) {
        Some(
            to_pdu_event(
                clock,
                id,
                sender,
                ev_type,
                state_key,
                content,
                auth_events,
                prev_events,
            ),
        )
    } else {
        None
    }
}

/// An event has the sender, the type, the state key and the content that were given, and names the
/// auth events and the previous events that were given, each list in its order; nothing else in it
/// depends on what was given but its own id and its stamp.
pub proof fn sample_event_has_what_was_given(
    ts: u64,
    id: Seq<char>,
    sender: Seq<char>,
    kind: Seq<char>,
    state_key: Option<Seq<char>>,
    content: Seq<char>,
    auth_events: Seq<Seq<char>>,
    prev_events: Seq<Seq<char>>,
)
    ensures
        ({
            let event = sample_event(
                ts,
                id,
                sender,
                kind,
                state_key,
                content,
                auth_events,
                prev_events,
            );
            &&& event.origin_server_ts == ts
            &&& event.event_id == full_event_id(id)
            &&& event.room_id == "!test:foo"@
            &&& event.sender == sender
            &&& event.kind == kind
            &&& event.state_key == state_key
            &&& event.content == content
            &&& event.auth_events.len() == auth_events.len()
            &&& forall|i: int|
                0 <= i < auth_events.len() ==> #[trigger] event.auth_events[i] == full_event_id(
                    auth_events[i],
                )
            &&& event.prev_events.len() == prev_events.len()
            &&& forall|i: int|
                0 <= i < prev_events.len() ==> #[trigger] event.prev_events[i] == full_event_id(
                    prev_events[i],
                )
            &&& event.depth == 0
            &&& event.redacts is None
            &&& event.unsigned is None
            &&& event.origin is None
            &&& event.signatures is None
            &&& event.sha256.len() == 0
        }),
{
}

} // verus!
