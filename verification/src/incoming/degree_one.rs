//! The state before an event that has one previous event.

use vstd::prelude::*;

use crate::error::Error;
use crate::error::ErrorView;
use crate::incoming::collect_state;
use crate::incoming::collected;
use crate::incoming::collected_holds_the_last_pairs;
use crate::incoming::full_state;
use crate::incoming::outcome_of;
use crate::incoming::set_after;
use crate::incoming::state_after_event;
use crate::incoming::FullState;
use crate::incoming::FullStateView;
use crate::incoming::PrevEvent;
use crate::incoming::PrevEventView;
use crate::incoming::RoomsView;
use crate::incoming::StateOutcome;

verus! {

broadcast use vstd::std_specs::hash::group_hash_axioms;

/// The search for the state before an event that has one previous event.
pub enum DegreeOne {
    /// Waits for the short state hash of the previous event.
    StateHash { prev_event_id: String },
    /// Waits for the previous event and the state before it.
    EventAndState,
    /// Waits for the short state key of the previous event.
    ShortStateKey { state: FullState, event_id: String },
    /// Has an outcome.
    Done,
}

/// What a [`DegreeOne`] asks for.
pub enum DegreeOneRequest {
    /// The short state hash of an event.
    ShortStateHash { event_id: String },
    /// An event, and the state with a short state hash.
    EventAndState { event_id: String, sstatehash: u64 },
    /// The short state key of a type and state key, made if there is none yet.
    ShortStateKey { event_type: String, state_key: String },
    /// Nothing: the search ends.
    Finish(Result<Option<FullState>, Error>),
}

/// What comes back to a [`DegreeOne`].
pub enum DegreeOneReply {
    /// The short state hash, if there is one.
    ShortStateHash(Option<u64>),
    /// The event, or what the database said instead; and the state, by short state keys.
    EventAndState(Result<PrevEvent, String>, Vec<(u64, String)>),
    /// The short state key.
    ShortStateKey(u64),
}

/// What a [`DegreeOne`] holds.
pub enum DegreeOneView {
    StateHash { prev_event_id: Seq<char> },
    EventAndState,
    ShortStateKey { state: FullStateView, event_id: Seq<char> },
    Done,
}

/// What a [`DegreeOneRequest`] says.
pub enum DegreeOneRequestView {
    ShortStateHash { event_id: Seq<char> },
    EventAndState { event_id: Seq<char>, sstatehash: u64 },
    ShortStateKey { event_type: Seq<char>, state_key: Seq<char> },
    Finish(StateOutcome),
}

/// What a [`DegreeOneReply`] says.
pub enum DegreeOneReplyView {
    ShortStateHash(Option<u64>),
    EventAndState(Result<PrevEventView, Seq<char>>, Seq<(u64, Seq<char>)>),
    ShortStateKey(u64),
}

impl View for DegreeOne {
    type V = DegreeOneView;

    open spec fn view(&self) -> DegreeOneView {
        match self {
            DegreeOne::StateHash { prev_event_id } => DegreeOneView::StateHash {
                prev_event_id: prev_event_id@,
            },
            DegreeOne::EventAndState => DegreeOneView::EventAndState,
            DegreeOne::ShortStateKey { state, event_id } => DegreeOneView::ShortStateKey {
                state: full_state(*state),
                event_id: event_id@,
            },
            DegreeOne::Done => DegreeOneView::Done,
        }
    }
}

impl View for DegreeOneRequest {
    type V = DegreeOneRequestView;

    open spec fn view(&self) -> DegreeOneRequestView {
        match self {
            DegreeOneRequest::ShortStateHash { event_id } => DegreeOneRequestView::ShortStateHash {
                event_id: event_id@,
            },
            DegreeOneRequest::EventAndState {
                event_id,
                sstatehash,
            } => DegreeOneRequestView::EventAndState {
                event_id: event_id@,
                sstatehash: *sstatehash,
            },
            DegreeOneRequest::ShortStateKey {
                event_type,
                state_key,
            } => DegreeOneRequestView::ShortStateKey {
                event_type: event_type@,
                state_key: state_key@,
            },
            DegreeOneRequest::Finish(result) => DegreeOneRequestView::Finish(outcome_of(*result)),
        }
    }
}

impl View for DegreeOneReply {
    type V = DegreeOneReplyView;

    open spec fn view(&self) -> DegreeOneReplyView {
        match self {
            DegreeOneReply::ShortStateHash(found) => DegreeOneReplyView::ShortStateHash(*found),
            DegreeOneReply::EventAndState(event, state) => DegreeOneReplyView::EventAndState(
                match event {
                    Ok(event) => Ok(event@),
                    Err(error) => Err(error@),
                },
                state.deep_view(),
            ),
            DegreeOneReply::ShortStateKey(key) => DegreeOneReplyView::ShortStateKey(*key),
        }
    }
}

/// The message of the error about a previous event that is missing though the state before it is
/// known.
pub open spec fn lost_event_message(error: Seq<char>) -> Seq<char> {
    "Could not find prev_event, but we know the state: "@ + error
}

impl DegreeOneView {
    /// The search goes on with this reply.
    pub open spec fn awaits(self, reply: DegreeOneReplyView) -> bool {
        match self {
            DegreeOneView::StateHash { .. } => reply is ShortStateHash,
            DegreeOneView::EventAndState => reply is EventAndState,
            DegreeOneView::ShortStateKey { .. } => reply is ShortStateKey,
            DegreeOneView::Done => false,
        }
    }

    /// How the search goes on with a reply. Without a short state hash the state is unknown; the
    /// previous event has to be there once its state is; and if it is a state event it is put into
    /// the state, under its short state key.
    pub open spec fn next(self, reply: DegreeOneReplyView) -> (DegreeOneView, DegreeOneRequestView)
        recommends
            self.awaits(reply),
    {
        match (self, reply) {
            (DegreeOneView::StateHash { .. }, DegreeOneReplyView::ShortStateHash(None)) => (
                DegreeOneView::Done,
                DegreeOneRequestView::Finish(StateOutcome::Unknown),
            ),
            (
                DegreeOneView::StateHash { prev_event_id },
                DegreeOneReplyView::ShortStateHash(Some(sstatehash)),
            ) => (
                DegreeOneView::EventAndState,
                DegreeOneRequestView::EventAndState { event_id: prev_event_id, sstatehash },
            ),
            (
                DegreeOneView::EventAndState,
                DegreeOneReplyView::EventAndState(Ok(event), pairs),
            ) => match event.state_key {
                Some(state_key) => (
                    DegreeOneView::ShortStateKey {
                        state: collected(pairs),
                        event_id: event.event_id,
                    },
                    DegreeOneRequestView::ShortStateKey { event_type: event.kind, state_key },
                ),
                None => (
                    DegreeOneView::Done,
                    DegreeOneRequestView::Finish(StateOutcome::Known(collected(pairs))),
                ),
            },
            (
                DegreeOneView::EventAndState,
                DegreeOneReplyView::EventAndState(Err(error), _),
            ) => (
                DegreeOneView::Done,
                DegreeOneRequestView::Finish(
                    StateOutcome::Failed(ErrorView::Database(lost_event_message(error))),
                ),
            ),
            (
                DegreeOneView::ShortStateKey { state, event_id },
                DegreeOneReplyView::ShortStateKey(key),
            ) => (
                DegreeOneView::Done,
                DegreeOneRequestView::Finish(StateOutcome::Known(state.insert(key, event_id))),
            ),
            _ => (DegreeOneView::Done, DegreeOneRequestView::Finish(StateOutcome::Unknown)),
        }
    }
}

/// How the search starts.
pub open spec fn degree_one_start(prev_events: Seq<Seq<char>>) -> (
    DegreeOneView,
    DegreeOneRequestView,
) {
    (
        DegreeOneView::StateHash { prev_event_id: prev_events[0] },
        DegreeOneRequestView::ShortStateHash { event_id: prev_events[0] },
    )
}

/// The search is about the first of the previous events, whatever comes after it.
pub proof fn degree_one_is_about_the_first_event(first: Seq<char>, others: Seq<Seq<char>>)
    ensures
        degree_one_start(seq![first] + others).0 == (DegreeOneView::StateHash {
            prev_event_id: first,
        }),
        degree_one_start(seq![first] + others).1 == (DegreeOneRequestView::ShortStateHash {
            event_id: first,
        }),
{
}

/// Starts the search for the state before an event that has one previous event: asks for the
/// short state hash of that event. Of more than one previous event the first is taken.
pub fn state_at_incoming_degree_one(prev_events: &Vec<String>) -> (r: (
    DegreeOne,
    DegreeOneRequest,
))
    requires
        prev_events.len() > 0,
    ensures
        r.0@ == (DegreeOneView::StateHash { prev_event_id: prev_events@[0]@ }),
        r.1@ == (DegreeOneRequestView::ShortStateHash { event_id: prev_events@[0]@ }),
        (r.0@, r.1@) == degree_one_start(prev_events.deep_view()),
{
    let prev_event_id = prev_events[0].clone();
    let event_id = prev_event_id.clone();
    (DegreeOne::StateHash { prev_event_id }, DegreeOneRequest::ShortStateHash { event_id })
}

impl DegreeOne {
    /// Goes on with a reply.
    pub fn step(self, reply: DegreeOneReply) -> (r: (DegreeOne, DegreeOneRequest))
        requires
            self@.awaits(reply@),
        ensures
            (r.0@, r.1@) == self@.next(reply@),
    {
        match (self, reply) {
            (DegreeOne::StateHash { .. }, DegreeOneReply::ShortStateHash(None)) => {
                (DegreeOne::Done, DegreeOneRequest::Finish(Ok(None)))
            },
            (DegreeOne::StateHash { prev_event_id }, DegreeOneReply::ShortStateHash(Some(hash))) => {
                (
                    DegreeOne::EventAndState,
                    DegreeOneRequest::EventAndState { event_id: prev_event_id, sstatehash: hash },
                )
            },
            (DegreeOne::EventAndState, DegreeOneReply::EventAndState(Ok(event), pairs)) => {
                let state = collect_state(pairs);
                let PrevEvent { event_id, kind, state_key } = event;
                match state_key {
                    Some(state_key) => (
                        DegreeOne::ShortStateKey { state, event_id },
                        DegreeOneRequest::ShortStateKey { event_type: kind, state_key },
                    ),
                    None => (DegreeOne::Done, DegreeOneRequest::Finish(Ok(Some(state)))),
                }
            },
            (DegreeOne::EventAndState, DegreeOneReply::EventAndState(Err(error), _)) => {
                let mut message = "Could not find prev_event, but we know the state: ".to_owned();
                message.append(&error);
                (DegreeOne::Done, DegreeOneRequest::Finish(Err(Error::Database(message))))
            },
            (DegreeOne::ShortStateKey { state, event_id }, DegreeOneReply::ShortStateKey(key)) => {
                let mut state = state;
                let ghost before = state@;
                state.insert(key, event_id);
                assert(full_state(state) =~= before.map_values(|id: String| id@).insert(
                    key,
                    event_id@,
                ));
                (DegreeOne::Done, DegreeOneRequest::Finish(Ok(Some(state))))
            },
            _ => unreached(),
        }
    }
}

/// The search ends with the state after the previous event, whatever the database holds.
pub proof fn degree_one_finds_the_state_after_the_event(
    prev_event_id: Seq<char>,
    sstatehash: u64,
    event: PrevEventView,
    pairs: Seq<(u64, Seq<char>)>,
    shortstatekey: u64,
)
    ensures
        ({
            let start = DegreeOneView::StateHash { prev_event_id };
            let (asked, _) = start.next(DegreeOneReplyView::ShortStateHash(Some(sstatehash)));
            let (loaded, request) = asked.next(
                DegreeOneReplyView::EventAndState(Ok(event), pairs),
            );
            let last = if event.state_key is Some {
                loaded.next(DegreeOneReplyView::ShortStateKey(shortstatekey)).1
            } else {
                request
            };
            last == DegreeOneRequestView::Finish(
                StateOutcome::Known(
                    state_after_event(collected(pairs), event, shortstatekey),
                ),
            )
        }),
{
}

/// The state stays unknown only where the previous event has no short state hash, and the search
/// fails only where it has one and the event is missing.
pub proof fn degree_one_ends_early_for_a_reason(search: DegreeOneView, reply: DegreeOneReplyView)
    requires
        search.awaits(reply),
    ensures
        ({
            let request = search.next(reply).1;
            &&& request == DegreeOneRequestView::Finish(StateOutcome::Unknown) <==> reply
                == DegreeOneReplyView::ShortStateHash(None)
            &&& (request matches DegreeOneRequestView::Finish(StateOutcome::Failed(_))) <==> (
            reply matches DegreeOneReplyView::EventAndState(Err(_), _))
        }),
{
}

impl RoomsView {
    /// What the services of the rooms reply to a request.
    pub open spec fn degree_one_reply(self, request: DegreeOneRequestView) -> DegreeOneReplyView {
        match request {
            DegreeOneRequestView::ShortStateHash { event_id } => DegreeOneReplyView::ShortStateHash(
                if self.hashes.contains_key(event_id) {
                    Some(self.hashes[event_id])
                } else {
                    None
                },
            ),
            DegreeOneRequestView::EventAndState {
                event_id,
                sstatehash,
            } => DegreeOneReplyView::EventAndState(self.events[event_id], self.states[sstatehash]),
            DegreeOneRequestView::ShortStateKey {
                event_type,
                state_key,
            } => DegreeOneReplyView::ShortStateKey(self.shorts[(event_type, state_key)]),
            DegreeOneRequestView::Finish(_) => arbitrary(),
        }
    }
}

/// Whatever the services of the rooms know, the search comes out with the state after the previous
/// event: the state with the short state hash of that event, and, where it is a state event, the
/// event under the short state key of its own type and state key. Without a short state hash the
/// state is unknown, and without the event the search fails with what is said instead.
pub proof fn degree_one_puts_the_event_under_its_own_key(
    rooms: RoomsView,
    prev_event_id: Seq<char>,
    key: u64,
    id: Seq<char>,
)
    ensures
        ({
            let start = DegreeOneView::StateHash { prev_event_id };
            let hash_reply = rooms.degree_one_reply(
                DegreeOneRequestView::ShortStateHash { event_id: prev_event_id },
            );
            let (asked, request) = start.next(hash_reply);
            let reply = rooms.degree_one_reply(request);
            let (loaded, key_request) = asked.next(reply);
            let key_reply = rooms.degree_one_reply(key_request);
            let last_request = loaded.next(key_reply).1;
            &&& start.awaits(hash_reply)
            &&& if !rooms.hashes.contains_key(prev_event_id) {
                request == DegreeOneRequestView::Finish(StateOutcome::Unknown)
            } else {
                let pairs = rooms.states[rooms.hashes[prev_event_id]];
                &&& asked.awaits(reply)
                &&& match rooms.events[prev_event_id] {
                    Err(error) => key_request == DegreeOneRequestView::Finish(
                        StateOutcome::Failed(
                            ErrorView::Database(
                                "Could not find prev_event, but we know the state: "@ + error,
                            ),
                        ),
                    ),
                    Ok(event) => {
                        let own = rooms.shorts[(event.kind, event.state_key->0)];
                        let end = if event.state_key is Some {
                            last_request
                        } else {
                            key_request
                        };
                        &&& event.state_key is Some ==> loaded.awaits(key_reply)
                        &&& end matches DegreeOneRequestView::Finish(StateOutcome::Known(state))
                        &&& state.contains_pair(key, id) <==> set_after(pairs, event, own, key, id)
                    },
                }
            }
        }),
{
    collected_holds_the_last_pairs(rooms.states[rooms.hashes[prev_event_id]], key, id);
}

} // verus!
