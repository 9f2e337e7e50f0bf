//! The end of serving.

use vstd::prelude::*;

verus! {

/// How long the end of serving waits for a task before it looks again whether requests are
/// handled, in milliseconds.
pub const FINI_POLL_INTERVAL_MS: u64 = 750;

/// A step of the end of serving, while it is carried out.
#[derive(Clone, Copy, PartialEq, Eq, Structural, Debug)]
pub enum FiniStep {
    CloseListener,
    CountActive,
    WaitForTask,
    ShutdownTasks,
    RemoveFile,
    Done,
}

/// The end of serving.
pub struct Fini {
    /// The path that the listener was bound to, where it is known and there is one.
    pub local: Option<String>,
    pub step: FiniStep,
}

/// What a [`Fini`] asks for.
pub enum FiniRequest {
    /// The listener to be closed.
    CloseListener,
    /// How many requests are handled.
    CountActive,
    /// The next task to end, for as long as `milliseconds`.
    WaitForTask { milliseconds: u64 },
    /// All tasks to be aborted and waited for.
    ShutdownTasks,
    /// A file to be removed.
    RemoveFile { path: String },
    /// Nothing: serving has ended.
    Finish,
}

/// What comes back to a [`Fini`].
#[derive(Clone, Copy, PartialEq, Eq, Structural, Debug)]
pub enum FiniReply {
    /// What was asked for was done, or could not be.
    Done,
    /// How many requests are handled.
    Active(u64),
    /// A task has ended.
    TaskEnded,
    /// There was no task.
    NoTask,
    /// No task has ended in time.
    Slept,
}

/// What a [`Fini`] holds.
pub struct FiniView {
    pub local: Option<Seq<char>>,
    pub step: FiniStep,
}

/// What a [`FiniRequest`] says.
pub enum FiniRequestView {
    CloseListener,
    CountActive,
    WaitForTask { milliseconds: u64 },
    ShutdownTasks,
    RemoveFile { path: Seq<char> },
    Finish,
}

impl View for Fini {
    type V = FiniView;

    open spec fn view(&self) -> FiniView {
        FiniView { local: self.local.deep_view(), step: self.step }
    }
}

impl View for FiniRequest {
    type V = FiniRequestView;

    open spec fn view(&self) -> FiniRequestView {
        match self {
            FiniRequest::CloseListener => FiniRequestView::CloseListener,
            FiniRequest::CountActive => FiniRequestView::CountActive,
            FiniRequest::WaitForTask { milliseconds } => FiniRequestView::WaitForTask {
                milliseconds: *milliseconds,
            },
            FiniRequest::ShutdownTasks => FiniRequestView::ShutdownTasks,
            FiniRequest::RemoveFile { path } => FiniRequestView::RemoveFile { path: path@ },
            FiniRequest::Finish => FiniRequestView::Finish,
        }
    }
}

impl FiniView {
    /// This end at another step.
    pub open spec fn at(self, step: FiniStep) -> FiniView {
        FiniView { step, ..self }
    }

    /// The end goes on with this reply.
    pub open spec fn awaits(self, reply: FiniReply) -> bool {
        match self.step {
            FiniStep::CloseListener => reply is Done,
            FiniStep::CountActive => reply is Active,
            FiniStep::WaitForTask => reply is TaskEnded || reply is NoTask || reply is Slept,
            FiniStep::ShutdownTasks => reply is Done,
            FiniStep::RemoveFile => reply is Done,
            FiniStep::Done => false,
        }
    }

    /// How the end goes on with a reply: the listener is closed; while requests are handled and
    /// there are tasks, it waits; then all tasks are shut down and the socket's file is removed.
    pub open spec fn next(self, reply: FiniReply) -> (FiniView, FiniRequestView)
        recommends
            self.awaits(reply),
    {
        match (self.step, reply) {
            (FiniStep::CloseListener, _) => (
                self.at(FiniStep::CountActive),
                FiniRequestView::CountActive,
            ),
            (FiniStep::CountActive, FiniReply::Active(active)) => if active > 0 {
                (
                    self.at(FiniStep::WaitForTask),
                    FiniRequestView::WaitForTask { milliseconds: FINI_POLL_INTERVAL_MS },
                )
            } else {
                (self.at(FiniStep::ShutdownTasks), FiniRequestView::ShutdownTasks)
            },
            (FiniStep::WaitForTask, FiniReply::NoTask) => (
                self.at(FiniStep::ShutdownTasks),
                FiniRequestView::ShutdownTasks,
            ),
            (FiniStep::WaitForTask, _) => (
                self.at(FiniStep::CountActive),
                FiniRequestView::CountActive,
            ),
            (FiniStep::ShutdownTasks, _) => match self.local {
                Some(path) => (self.at(FiniStep::RemoveFile), FiniRequestView::RemoveFile { path }),
                None => (self.at(FiniStep::Done), FiniRequestView::Finish),
            },
            (_, _) => (self.at(FiniStep::Done), FiniRequestView::Finish),
        }
    }
}

/// Starts to end serving at a listener with this local address: asks for the listener to be
/// closed.
pub fn fini(local: Result<Option<String>, String>) -> (r: (Fini, FiniRequest))
    ensures
        r.0@ == (FiniView {
            local: match local {
                Ok(path) => path.deep_view(),
                Err(_) => None,
            },
            step: FiniStep::CloseListener,
        }),
        r.1@ == FiniRequestView::CloseListener,
        (r.0@, r.1@) == fini_run(
            match local {
                Ok(path) => path.deep_view(),
                Err(_) => None,
            },
            seq![],
        ),
{
    let local = match local {
        Ok(path) => path,
        Err(_) => None,
    };
    (Fini { local, step: FiniStep::CloseListener }, FiniRequest::CloseListener)
}

impl Fini {
    /// This end at another step.
    fn at(self, step: FiniStep) -> (r: Fini)
        ensures
            r@ == self@.at(step),
    {
        Fini { local: self.local, step }
    }

    /// Goes on with a reply.
    pub fn step(self, reply: FiniReply) -> (r: (Fini, FiniRequest))
        requires
            self@.awaits(reply),
        ensures
            (r.0@, r.1@) == self@.next(reply),
    {
        match (self.step, reply) {
            (FiniStep::CloseListener, _) => {
                (self.at(FiniStep::CountActive), FiniRequest::CountActive)
            },
            (FiniStep::CountActive, FiniReply::Active(active)) => {
                if active > 0 {
                    (
                        self.at(FiniStep::WaitForTask),
                        FiniRequest::WaitForTask { milliseconds: FINI_POLL_INTERVAL_MS },
                    )
                } else {
                    (self.at(FiniStep::ShutdownTasks), FiniRequest::ShutdownTasks)
                }
            },
            (FiniStep::WaitForTask, FiniReply::NoTask) => {
                (self.at(FiniStep::ShutdownTasks), FiniRequest::ShutdownTasks)
            },
            (FiniStep::WaitForTask, _) => {
                (self.at(FiniStep::CountActive), FiniRequest::CountActive)
            },
            (FiniStep::ShutdownTasks, _) => {
                let file = match &self.local {
                    Some(path) => Some(path.clone()),
                    None => None,
                };
                match file {
                    Some(path) => {
                        (self.at(FiniStep::RemoveFile), FiniRequest::RemoveFile { path })
                    },
                    None => (self.at(FiniStep::Done), FiniRequest::Finish),
                }
            },
            (FiniStep::RemoveFile, _) => (self.at(FiniStep::Done), FiniRequest::Finish),
            _ => unreached(),
        }
    }
}

/// Where the end stands after `replies`.
pub open spec fn fini_run(local: Option<Seq<char>>, replies: Seq<FiniReply>) -> (
    FiniView,
    FiniRequestView,
)
    decreases replies.len(),
{
    if replies.len() == 0 {
        (FiniView { local, step: FiniStep::CloseListener }, FiniRequestView::CloseListener)
    } else {
        fini_run(local, replies.drop_last()).0.next(replies.last())
    }
}

/// Each of `replies` answers what was asked for.
pub open spec fn is_fini_run(local: Option<Seq<char>>, replies: Seq<FiniReply>) -> bool
    decreases replies.len(),
{
    replies.len() > 0 ==> is_fini_run(local, replies.drop_last()) && fini_run(
        local,
        replies.drop_last(),
    ).0.awaits(replies.last())
}

/// `reply` keeps the end waiting: a count of requests above zero, or a wait that was ended by a
/// task or by the time.
pub open spec fn prolongs(reply: FiniReply) -> bool {
    match reply {
        FiniReply::Active(active) => active > 0,
        FiniReply::TaskEnded => true,
        FiniReply::Slept => true,
        _ => false,
    }
}

/// `replies` close the listener and then keep the end waiting.
pub open spec fn keeps_waiting(replies: Seq<FiniReply>) -> bool {
    &&& replies.len() >= 1
    &&& replies[0] is Done
    &&& forall|i: int|
        1 <= i < replies.len() ==> prolongs(#[trigger] replies[i])
}

/// `replies` keep the end waiting until the last one says that no request is handled or that there
/// is no task.
pub open spec fn waits_out(replies: Seq<FiniReply>) -> bool {
    &&& replies.len() >= 2
    &&& keeps_waiting(replies.drop_last())
    &&& replies.last() == FiniReply::Active(0) || replies.last() is NoTask
}

/// Where the end stands is told by what has come back: it waits for as long as requests are handled
/// and tasks are there, and shuts the tasks down only then; the socket's file is removed only after
/// that, where its path is known; and only then does serving end.
pub proof fn fini_waits_out_requests(local: Option<Seq<char>>, replies: Seq<FiniReply>)
    requires
        is_fini_run(local, replies),
    ensures
        ({
            let (state, request) = fini_run(local, replies);
            &&& state.local == local
            &&& request is CloseListener <==> replies.len() == 0
            &&& request is CountActive <==> keeps_waiting(replies) && !(replies.last() is Active)
            &&& request is WaitForTask <==> keeps_waiting(replies) && replies.last() is Active
            &&& request is WaitForTask ==> request->milliseconds == 750
            &&& request is ShutdownTasks <==> waits_out(replies)
            &&& request is RemoveFile <==> replies.len() > 0 && waits_out(replies.drop_last())
                && local is Some
            &&& request is RemoveFile ==> request->path == local->0
            &&& request is Finish <==> match local {
                Some(_) => replies.len() > 1 && waits_out(replies.drop_last().drop_last()),
                None => replies.len() > 0 && waits_out(replies.drop_last()),
            }
        }),
    decreases replies.len(),
{
    fini_asks_for_its_step(local, replies);
    if replies.len() > 0 {
        let before = replies.drop_last();
        fini_waits_out_requests(local, before);
        fini_asks_for_its_step(local, before);
        keeps_waiting_one_more(replies);
        if before.len() > 1 {
            keeps_waiting_one_more(before);
        }
    }
}

/// Waiting goes on with one more reply that prolongs it.
proof fn keeps_waiting_one_more(replies: Seq<FiniReply>)
    requires
        replies.len() > 0,
    ensures
        replies.len() == 1 ==> (keeps_waiting(replies) <==> replies[0] is Done),
        replies.len() > 1 ==> (keeps_waiting(replies) <==> keeps_waiting(replies.drop_last())
            && prolongs(replies.last())),
{
    let before = replies.drop_last();
    if replies.len() > 1 {
        if keeps_waiting(replies) {
            assert forall|i: int| 1 <= i < before.len() implies prolongs(#[trigger] before[i]) by {
                assert(replies[i] == before[i]);
            }
        }
        if keeps_waiting(before) && prolongs(replies.last()) {
            assert(before[0] == replies[0]);
            assert forall|i: int| 1 <= i < replies.len() implies prolongs(#[trigger] replies[i]) by {
                if i < before.len() {
                    assert(replies[i] == before[i]);
                }
            }
        }
    }
}

/// What is asked for is told by the step.
proof fn fini_asks_for_its_step(local: Option<Seq<char>>, replies: Seq<FiniReply>)
    requires
        is_fini_run(local, replies),
    ensures
        match fini_run(local, replies).0.step {
            FiniStep::CloseListener => fini_run(local, replies).1 is CloseListener,
            FiniStep::CountActive => fini_run(local, replies).1 is CountActive,
            FiniStep::WaitForTask => fini_run(local, replies).1 is WaitForTask,
            FiniStep::ShutdownTasks => fini_run(local, replies).1 is ShutdownTasks,
            FiniStep::RemoveFile => fini_run(local, replies).1 is RemoveFile,
            FiniStep::Done => fini_run(local, replies).1 is Finish,
        },
    decreases replies.len(),
{
    if replies.len() > 0 {
        fini_asks_for_its_step(local, replies.drop_last());
    }
}

} // verus!
