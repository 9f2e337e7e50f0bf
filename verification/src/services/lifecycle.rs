//! Starting, polling and stopping the services.
//!
//! `E` is an error of the server; it is not looked into here.

use vstd::prelude::*;

use crate::services::Services;

verus! {

/// What a server says of its own user.
#[derive(Clone, Copy, PartialEq, Eq, Debug)]
pub enum Presence {
    Online,
    Offline,
}

/// What starting and stopping depends on.
#[derive(Clone, Copy, PartialEq, Eq, Debug)]
pub struct PresenceConfig {
    /// Whether the presence of local users is kept.
    pub allow_local_presence: bool,
    /// Whether the database takes no writes.
    pub read_only: bool,
}

impl PresenceConfig {
    /// Whether the presence of the server's own user is kept: where local presence is, and can be
    /// written.
    pub open spec fn keeps_presence(self) -> bool {
        self.allow_local_presence && !self.read_only
    }

    /// Whether the presence of the server's own user is kept.
    pub fn is_presence_kept(&self) -> (r: bool)
        ensures
            r == self.keeps_presence(),
            r == (self.allow_local_presence && !self.read_only),
    {
        self.allow_local_presence && !self.read_only
    }
}

/// A step of the start of the services, while it is carried out.
#[derive(Clone, Copy, PartialEq, Eq, Debug)]
pub enum Start {
    SetAdminServices,
    Migrate,
    StartManager,
    UnsetAllPresence,
    PingPresence,
    Done,
}

/// What the start of the services asks for.
pub enum StartRequest<E> {
    /// The admin service to be given the services.
    SetAdminServices,
    /// The database to be migrated.
    Migrate,
    /// A new manager to be put in place and started.
    StartManager,
    /// All users' statuses that lie dormant to be reset to offline.
    UnsetAllPresence,
    /// The presence of the server's own user to be set.
    PingPresence(Presence),
    /// Nothing: the start ends.
    Finish(Result<(), E>),
}

impl Start {
    /// How the start goes on with the result of a step: a migration or a manager that fails ends
    /// it, and where presence is kept the statuses are reset before the server's own user comes
    /// online. A failure to set that user's presence counts for nothing.
    pub open spec fn next<E>(self, config: PresenceConfig, result: Result<(), E>) -> (
        Start,
        StartRequest<E>,
    ) {
        match (self, result) {
            (Start::SetAdminServices, _) => (Start::Migrate, StartRequest::Migrate),
            (Start::Migrate, Ok(_)) => (Start::StartManager, StartRequest::StartManager),
            (Start::Migrate, Err(error)) => (Start::Done, StartRequest::Finish(Err(error))),
            (Start::StartManager, Err(error)) => (Start::Done, StartRequest::Finish(Err(error))),
            (Start::StartManager, Ok(_)) => if config.keeps_presence() {
                (Start::UnsetAllPresence, StartRequest::UnsetAllPresence)
            } else {
                (Start::Done, StartRequest::Finish(Ok(())))
            },
            (Start::UnsetAllPresence, _) => (
                Start::PingPresence,
                StartRequest::PingPresence(Presence::Online),
            ),
            (Start::PingPresence, _) => (Start::Done, StartRequest::Finish(Ok(()))),
            (Start::Done, _) => (Start::Done, StartRequest::Finish(result)),
        }
    }

    /// Goes on with the result of the step that was asked for.
    pub fn step<E>(self, config: PresenceConfig, result: Result<(), E>) -> (r: (
        Start,
        StartRequest<E>,
    ))
        requires
            self != Start::Done,
        ensures
            r == self.next(config, result),
    {
        match self {
            Start::SetAdminServices => (Start::Migrate, StartRequest::Migrate),
            Start::Migrate => match result {
                Ok(_) => (Start::StartManager, StartRequest::StartManager),
                Err(error) => (Start::Done, StartRequest::Finish(Err(error))),
            },
            Start::StartManager => match result {
                Ok(_) => {
                    if config.is_presence_kept() {
                        (Start::UnsetAllPresence, StartRequest::UnsetAllPresence)
                    } else {
                        (Start::Done, StartRequest::Finish(Ok(())))
                    }
                },
                Err(error) => (Start::Done, StartRequest::Finish(Err(error))),
            },
            Start::UnsetAllPresence => {
                (Start::PingPresence, StartRequest::PingPresence(Presence::Online))
            },
            Start::PingPresence => (Start::Done, StartRequest::Finish(Ok(()))),
            Start::Done => unreached(),
        }
    }
}

/// A step of the stop of the services, while it is carried out.
#[derive(Clone, Copy, PartialEq, Eq, Debug)]
pub enum Stop {
    PingPresence,
    Interrupt,
    StopManager,
    ClearAdminServices,
    Done,
}

/// What the stop of the services asks for.
#[derive(Clone, Copy, PartialEq, Eq, Debug)]
pub enum StopRequest {
    /// The presence of the server's own user to be set.
    PingPresence(Presence),
    /// Every service that is alive to be interrupted.
    Interrupt,
    /// The manager to be stopped.
    StopManager,
    /// The services to be taken from the admin service.
    ClearAdminServices,
    /// Nothing: the stop ends.
    Finish,
}

impl Stop {
    /// How the stop goes on after a step; the manager is stopped where there is one.
    pub open spec fn next(self, has_manager: bool) -> (Stop, StopRequest) {
        match self {
            Stop::PingPresence => (Stop::Interrupt, StopRequest::Interrupt),
            Stop::Interrupt => if has_manager {
                (Stop::StopManager, StopRequest::StopManager)
            } else {
                (Stop::ClearAdminServices, StopRequest::ClearAdminServices)
            },
            Stop::StopManager => (Stop::ClearAdminServices, StopRequest::ClearAdminServices),
            Stop::ClearAdminServices => (Stop::Done, StopRequest::Finish),
            Stop::Done => (Stop::Done, StopRequest::Finish),
        }
    }

    /// Goes on after the step that was asked for.
    pub fn step(self, has_manager: bool) -> (r: (Stop, StopRequest))
        ensures
            r == self.next(has_manager),
    {
        match self {
            Stop::PingPresence => (Stop::Interrupt, StopRequest::Interrupt),
            Stop::Interrupt => {
                if has_manager {
                    (Stop::StopManager, StopRequest::StopManager)
                } else {
                    (Stop::ClearAdminServices, StopRequest::ClearAdminServices)
                }
            },
            Stop::StopManager => (Stop::ClearAdminServices, StopRequest::ClearAdminServices),
            Stop::ClearAdminServices => (Stop::Done, StopRequest::Finish),
            Stop::Done => (Stop::Done, StopRequest::Finish),
        }
    }
}

impl<W> Services<W> {
    /// Starts the services: asks for the admin service to be given them.
    pub fn start<E>(&self) -> (r: (Start, StartRequest<E>))
        ensures
            r.0 == Start::SetAdminServices,
            r.1 == StartRequest::<E>::SetAdminServices,
            forall|config: PresenceConfig| r == #[trigger] start_run::<E>(config, seq![]),
    {
        (Start::SetAdminServices, StartRequest::SetAdminServices)
    }

    /// Stops the services: where presence is kept, the server's own user goes offline first.
    pub fn stop(&self, config: PresenceConfig) -> (r: (Stop, StopRequest))
        ensures
            config.keeps_presence() ==> r == (
                Stop::PingPresence,
                StopRequest::PingPresence(Presence::Offline),
            ),
            !config.keeps_presence() ==> r == (Stop::Interrupt, StopRequest::Interrupt),
            forall|has_manager: bool| r == #[trigger] stop_run(config, has_manager, 0),
    {
        if config.is_presence_kept() {
            (Stop::PingPresence, StopRequest::PingPresence(Presence::Offline))
        } else {
            (Stop::Interrupt, StopRequest::Interrupt)
        }
    }

    /// What polling the services gives: what polling the manager gave, where there is one.
    pub fn poll<E>(&self, polled: Option<Result<(), E>>) -> (r: Result<(), E>)
        ensures
            polled matches Some(result) ==> r == result,
            polled is None ==> r is Ok,
    {
        match polled {
            Some(result) => result,
            None => Ok(()),
        }
    }
}

/// Where the start stands after `results`.
pub open spec fn start_run<E>(config: PresenceConfig, results: Seq<Result<(), E>>) -> (
    Start,
    StartRequest<E>,
)
    decreases results.len(),
{
    if results.len() == 0 {
        (Start::SetAdminServices, StartRequest::SetAdminServices)
    } else {
        start_run(config, results.drop_last()).0.next(config, results.last())
    }
}

/// The start has not come to an end before the last of `results`.
pub open spec fn is_start_run<E>(config: PresenceConfig, results: Seq<Result<(), E>>) -> bool
    decreases results.len(),
{
    results.len() > 0 ==> is_start_run(config, results.drop_last()) && start_run(
        config,
        results.drop_last(),
    ).0 != Start::Done
}

/// The start goes through its steps in order: the admin service gets the services, the database is
/// migrated, the manager is started. The migration or the manager that fails ends the start with
/// its error. After that the statuses are reset and the server's own user comes online where
/// presence is kept, and nothing of that is done where it is not; the start then succeeds.
pub proof fn start_goes_through_its_steps<E>(config: PresenceConfig, results: Seq<Result<(), E>>)
    requires
        is_start_run(config, results),
    ensures
        ({
            let request = start_run(config, results).1;
            if results.len() == 0 {
                request == StartRequest::<E>::SetAdminServices
            } else if results.len() == 1 {
                request == StartRequest::<E>::Migrate
            } else if results.len() == 2 {
                match results[1] {
                    Ok(_) => request == StartRequest::<E>::StartManager,
                    Err(error) => request == StartRequest::Finish(Err(error)),
                }
            } else if results.len() == 3 {
                &&& results[1] is Ok
                &&& match results[2] {
                    Ok(_) => if config.keeps_presence() {
                        request == StartRequest::<E>::UnsetAllPresence
                    } else {
                        request matches StartRequest::Finish(Ok(_))
                    },
                    Err(error) => request == StartRequest::Finish(Err(error)),
                }
            } else {
                &&& results[1] is Ok
                &&& results[2] is Ok
                &&& config.keeps_presence()
                &&& results.len() == 4 ==> request == StartRequest::<E>::PingPresence(
                    Presence::Online,
                )
                &&& results.len() > 4 ==> results.len() == 5 && (
                request matches StartRequest::Finish(Ok(_)))
            }
        }),
{
    reveal_with_fuel(start_run, 7);
    reveal_with_fuel(is_start_run, 7);
    start_ends_in_time(config, results);
}

/// The start ends after five steps at the latest.
proof fn start_ends_in_time<E>(config: PresenceConfig, results: Seq<Result<(), E>>)
    requires
        is_start_run(config, results),
    ensures
        results.len() <= 5,
    decreases results.len(),
{
    if results.len() > 0 {
        start_ends_in_time(config, results.drop_last());
    }
    reveal_with_fuel(start_run, 7);
    reveal_with_fuel(is_start_run, 7);
}

/// Where the stop stands after `done` steps.
pub open spec fn stop_run(config: PresenceConfig, has_manager: bool, done: nat) -> (
    Stop,
    StopRequest,
)
    decreases done,
{
    if done > 0 {
        stop_run(config, has_manager, (done - 1) as nat).0.next(has_manager)
    } else if config.keeps_presence() {
        (Stop::PingPresence, StopRequest::PingPresence(Presence::Offline))
    } else {
        (Stop::Interrupt, StopRequest::Interrupt)
    }
}

/// What the stop asks for, in order.
pub open spec fn stop_requests(config: PresenceConfig, has_manager: bool) -> Seq<StopRequest> {
    (if config.keeps_presence() {
        seq![StopRequest::PingPresence(Presence::Offline)]
    } else {
        seq![]
    }) + seq![StopRequest::Interrupt] + (if has_manager {
        seq![StopRequest::StopManager]
    } else {
        seq![]
    }) + seq![StopRequest::ClearAdminServices, StopRequest::Finish]
}

/// The stop asks for [`stop_requests`], in that order.
pub proof fn stop_goes_through_its_steps(config: PresenceConfig, has_manager: bool, done: nat)
    requires
        done < stop_requests(config, has_manager).len(),
    ensures
        stop_run(config, has_manager, done).1 == stop_requests(config, has_manager)[done as int],
{
    reveal_with_fuel(stop_run, 6);
}

/// Presence is set at the start where local presence is allowed and the database takes writes, and
/// nowhere else: whatever the results of the steps, the server's own user comes online right after
/// the statuses were reset, which comes right after the manager has started.
pub proof fn start_sets_presence_only_where_it_is_kept<E>(
    config: PresenceConfig,
    results: Seq<Result<(), E>>,
)
    requires
        is_start_run(config, results),
    ensures
        ({
            let request = start_run(config, results).1;
            let kept = config.allow_local_presence && !config.read_only;
            &&& request is UnsetAllPresence <==> kept && results.len() == 3 && results[2] is Ok
            &&& request is PingPresence <==> results.len() == 4
            &&& request is PingPresence ==> kept && request->PingPresence_0 == Presence::Online
            &&& (request matches StartRequest::Finish(Ok(_))) <==> results.len() == (if kept {
                5int
            } else {
                3
            }) && results[1] is Ok && results[2] is Ok
        }),
{
    start_goes_through_its_steps(config, results);
    start_ends_in_time(config, results);
    reveal_with_fuel(start_run, 7);
    reveal_with_fuel(is_start_run, 7);
}

/// At the stop the server's own user goes offline first, where presence is kept; then the services
/// are interrupted, before the manager is stopped, where there is one; the admin service loses the
/// services last.
pub proof fn stop_undoes_the_start(config: PresenceConfig, has_manager: bool, done: nat)
    ensures
        ({
            let request = stop_run(config, has_manager, done).1;
            let offline: int = if config.allow_local_presence && !config.read_only {
                1
            } else {
                0
            };
            let manager: int = if has_manager {
                1
            } else {
                0
            };
            &&& request == StopRequest::PingPresence(Presence::Offline) <==> done < offline
            &&& request == StopRequest::PingPresence(Presence::Online) <==> false
            &&& request == StopRequest::Interrupt <==> done == offline
            &&& request == StopRequest::StopManager <==> offline < done <= offline + manager
            &&& request == StopRequest::ClearAdminServices <==> done == offline + manager + 1
            &&& request == StopRequest::Finish <==> done > offline + manager + 1
        }),
    decreases done,
{
    reveal_with_fuel(stop_run, 6);
    if done > 5 {
        stop_undoes_the_start(config, has_manager, (done - 1) as nat);
        stop_stays_done(config, has_manager, done);
    }
}

/// Once the stop has come to an end it stays there.
proof fn stop_stays_done(config: PresenceConfig, has_manager: bool, done: nat)
    requires
        done >= 5,
    ensures
        stop_run(config, has_manager, done).0 == Stop::Done,
        stop_run(config, has_manager, done).1 == StopRequest::Finish,
    decreases done,
{
    reveal_with_fuel(stop_run, 6);
    if done > 5 {
        stop_stays_done(config, has_manager, (done - 1) as nat);
    }
}

} // verus!
