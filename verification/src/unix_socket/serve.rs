//! Serving until the server stops or is told to.
//!
//! `E` is why the socket could not be opened; it is not looked into here.

use vstd::prelude::*;

verus! {

/// A step of serving, while it is carried out.
#[derive(Clone, Copy, PartialEq, Eq, Structural, Debug)]
pub enum Serve {
    Open,
    CheckRunning,
    Accept,
    SpawnTask,
    JoinTask,
    End,
    Done,
}

/// What serving asks for.
pub enum ServeRequest<E> {
    /// The socket to be opened.
    Open,
    /// Whether the server is running.
    CheckRunning,
    /// A connection to be accepted, or the signal to shut down, whichever comes first.
    Accept,
    /// A task that serves the connection.
    SpawnTask,
    /// A task to be joined that has ended already.
    JoinTask,
    /// Serving to be ended.
    End,
    /// Nothing: serving has ended.
    Finish(Result<(), E>),
}

/// What comes back to serving.
pub enum ServeReply<E> {
    /// Whether the socket was opened.
    Opened(Result<(), E>),
    /// Whether the server is running.
    Running(bool),
    /// A connection was accepted.
    Accepted,
    /// A connection could not be accepted.
    AcceptFailed,
    /// The signal to shut down has come.
    Shutdown,
    /// The task was spawned.
    Spawned,
    /// Whether there was a task to join.
    Joined(bool),
    /// Serving was ended.
    Ended,
}

impl Serve {
    /// Serving goes on with this reply.
    pub open spec fn awaits<E>(self, reply: ServeReply<E>) -> bool {
        match self {
            Serve::Open => reply is Opened,
            Serve::CheckRunning => reply is Running,
            Serve::Accept => reply is Accepted || reply is AcceptFailed || reply is Shutdown,
            Serve::SpawnTask => reply is Spawned,
            Serve::JoinTask => reply is Joined,
            Serve::End => reply is Ended,
            Serve::Done => false,
        }
    }

    /// How serving goes on with a reply: while the server is running, connections are accepted,
    /// each is given a task, and the tasks that have ended are joined. A connection that could not
    /// be accepted is passed over. Once the server is not running, or the signal to shut down has
    /// come, serving is ended.
    pub open spec fn next<E>(self, reply: ServeReply<E>) -> (Serve, ServeRequest<E>)
        recommends
            self.awaits(reply),
    {
        match (self, reply) {
            (Serve::Open, ServeReply::Opened(Ok(_))) => (
                Serve::CheckRunning,
                ServeRequest::CheckRunning,
            ),
            (Serve::Open, ServeReply::Opened(Err(error))) => (
                Serve::Done,
                ServeRequest::Finish(Err(error)),
            ),
            (Serve::CheckRunning, ServeReply::Running(true)) => (
                Serve::Accept,
                ServeRequest::Accept,
            ),
            (Serve::CheckRunning, _) => (Serve::End, ServeRequest::End),
            (Serve::Accept, ServeReply::Accepted) => (Serve::SpawnTask, ServeRequest::SpawnTask),
            (Serve::Accept, ServeReply::AcceptFailed) => (
                Serve::CheckRunning,
                ServeRequest::CheckRunning,
            ),
            (Serve::Accept, _) => (Serve::End, ServeRequest::End),
            (Serve::SpawnTask, _) => (Serve::JoinTask, ServeRequest::JoinTask),
            (Serve::JoinTask, ServeReply::Joined(true)) => (
                Serve::JoinTask,
                ServeRequest::JoinTask,
            ),
            (Serve::JoinTask, _) => (Serve::CheckRunning, ServeRequest::CheckRunning),
            (_, _) => (Serve::Done, ServeRequest::Finish(Ok(()))),
        }
    }

    /// Goes on with a reply.
    pub fn step<E>(self, reply: ServeReply<E>) -> (r: (Serve, ServeRequest<E>))
        requires
            self.awaits(reply),
        ensures
            r == self.next(reply),
    {
        match (self, reply) {
            (Serve::Open, ServeReply::Opened(Ok(_))) => {
                (Serve::CheckRunning, ServeRequest::CheckRunning)
            },
            (Serve::Open, ServeReply::Opened(Err(error))) => {
                (Serve::Done, ServeRequest::Finish(Err(error)))
            },
            (Serve::CheckRunning, ServeReply::Running(running)) => {
                if running {
                    (Serve::Accept, ServeRequest::Accept)
                } else {
                    (Serve::End, ServeRequest::End)
                }
            },
            (Serve::Accept, ServeReply::Accepted) => (Serve::SpawnTask, ServeRequest::SpawnTask),
            (Serve::Accept, ServeReply::AcceptFailed) => {
                (Serve::CheckRunning, ServeRequest::CheckRunning)
            },
            (Serve::Accept, _) => (Serve::End, ServeRequest::End),
            (Serve::SpawnTask, _) => (Serve::JoinTask, ServeRequest::JoinTask),
            (Serve::JoinTask, ServeReply::Joined(joined)) => {
                if joined {
                    (Serve::JoinTask, ServeRequest::JoinTask)
                } else {
                    (Serve::CheckRunning, ServeRequest::CheckRunning)
                }
            },
            (Serve::End, _) => (Serve::Done, ServeRequest::Finish(Ok(()))),
            _ => unreached(),
        }
    }
}

/// Starts to serve: asks for the socket to be opened.
pub fn serve<E>() -> (r: (Serve, ServeRequest<E>))
    ensures
        r == (Serve::Open, ServeRequest::<E>::Open),
        r == serve_run::<E>(seq![]),
{
    (Serve::Open, ServeRequest::Open)
}

/// Where serving stands after `replies`.
pub open spec fn serve_run<E>(replies: Seq<ServeReply<E>>) -> (Serve, ServeRequest<E>)
    decreases replies.len(),
{
    if replies.len() == 0 {
        (Serve::Open, ServeRequest::Open)
    } else {
        serve_run(replies.drop_last()).0.next(replies.last())
    }
}

/// Each of `replies` answers what was asked for.
pub open spec fn is_serve_run<E>(replies: Seq<ServeReply<E>>) -> bool
    decreases replies.len(),
{
    replies.len() > 0 ==> is_serve_run(replies.drop_last()) && serve_run(
        replies.drop_last(),
    ).0.awaits(replies.last())
}

/// `reply` ends the serving of requests.
pub open spec fn ends_serving<E>(reply: ServeReply<E>) -> bool {
    reply == ServeReply::<E>::Running(false) || reply is Shutdown
}

/// Serving fails only where the socket was not opened, and with that failure; else it goes on until
/// the server is not running or is told to shut down, is then ended in order, and succeeds.
pub proof fn serving_fails_only_to_open<E>(replies: Seq<ServeReply<E>>)
    requires
        is_serve_run(replies),
    ensures
        ({
            let request = serve_run(replies).1;
            let last = replies.last();
            &&& request is Open <==> replies.len() == 0
            &&& request matches ServeRequest::Finish(Err(error)) ==> replies == seq![
                ServeReply::Opened(Err::<(), E>(error)),
            ]
            &&& request is End <==> replies.len() > 0 && ends_serving(last)
            &&& request matches ServeRequest::Finish(Ok(_)) ==> replies.len() > 1
                && ends_serving(replies[replies.len() - 2]) && last is Ended
            &&& request is Accept ==> last == ServeReply::<E>::Running(true)
        }),
        replies.len() > 1 ==> (replies[0] matches ServeReply::Opened(Ok(_))),
    decreases replies.len(),
{
    if replies.len() > 0 {
        let before = replies.drop_last();
        serving_asks_for_its_step(before);
        serving_fails_only_to_open(before);
        if replies.len() == 1 {
            assert(replies =~= seq![replies.last()]);
        } else {
            assert(before[0] == replies[0]);
            reveal_with_fuel(serve_run, 3);
            reveal_with_fuel(is_serve_run, 3);
        }
    }
}

/// What is asked for is told by the step.
proof fn serving_asks_for_its_step<E>(replies: Seq<ServeReply<E>>)
    requires
        is_serve_run(replies),
    ensures
        match serve_run(replies).0 {
            Serve::Open => serve_run(replies).1 is Open,
            Serve::CheckRunning => serve_run(replies).1 is CheckRunning,
            Serve::Accept => serve_run(replies).1 is Accept,
            Serve::SpawnTask => serve_run(replies).1 is SpawnTask,
            Serve::JoinTask => serve_run(replies).1 is JoinTask,
            Serve::End => serve_run(replies).1 is End,
            Serve::Done => serve_run(replies).1 is Finish,
        },
    decreases replies.len(),
{
    if replies.len() > 0 {
        serving_asks_for_its_step(replies.drop_last());
    }
}

/// Each connection that was accepted is given a task, and then every task that has ended is joined
/// before another connection is accepted.
pub proof fn accepted_connections_are_served<E>(replies: Seq<ServeReply<E>>)
    requires
        is_serve_run(replies),
    ensures
        ({
            let request = serve_run(replies).1;
            let last = replies.last();
            &&& request is SpawnTask <==> replies.len() > 0 && last is Accepted
            &&& request is JoinTask <==> replies.len() > 0 && (last is Spawned || last
                == ServeReply::<E>::Joined(true))
        }),
    decreases replies.len(),
{
    if replies.len() > 0 {
        serving_asks_for_its_step(replies.drop_last());
        accepted_connections_are_served(replies.drop_last());
    }
}

/// What is asked for next is told by the last reply alone: after a socket that was opened, a
/// connection that could not be accepted and the joining of all ended tasks, whether the server is
/// running; while it is, a connection.
pub proof fn serving_accepts_while_the_server_runs<E>(replies: Seq<ServeReply<E>>)
    requires
        is_serve_run(replies),
        replies.len() > 0,
    ensures
        ({
            let request = serve_run(replies).1;
            &&& request is CheckRunning <==> match replies.last() {
                ServeReply::Opened(opened) => opened is Ok,
                ServeReply::AcceptFailed => true,
                ServeReply::Joined(joined) => !joined,
                _ => false,
            }
            &&& request is Accept <==> replies.last() == ServeReply::<E>::Running(true)
            &&& request is End <==> replies.last() == ServeReply::<E>::Running(false)
                || replies.last() is Shutdown
            &&& request is SpawnTask <==> replies.last() is Accepted
            &&& request is JoinTask <==> replies.last() is Spawned || replies.last()
                == ServeReply::<E>::Joined(true)
            &&& request is Finish <==> match replies.last() {
                ServeReply::Opened(opened) => opened is Err,
                ServeReply::Ended => true,
                _ => false,
            }
            &&& request matches ServeRequest::Finish(Err(error)) ==> replies.last()
                == ServeReply::Opened(Err::<(), E>(error))
        }),
{
    serving_asks_for_its_step(replies.drop_last());
}

} // verus!
