//! Building the services.
//!
//! `W` is what the registry keeps of a service and `E` an error of the server; neither is looked
//! into here.

use vstd::prelude::*;

use crate::services::Services;

verus! {

/// The services of a server, in the order in which they are built.
#[derive(Clone, Copy, PartialEq, Eq, Debug)]
pub enum ServiceKind {
    AccountData,
    Admin,
    Appservice,
    Resolver,
    Client,
    Config,
    Emergency,
    Globals,
    KeyBackups,
    Media,
    Presence,
    Pusher,
    RoomsAlias,
    RoomsAuthChain,
    RoomsDirectory,
    RoomsEventHandler,
    RoomsLazyLoading,
    RoomsMetadata,
    RoomsOutlier,
    RoomsPduMetadata,
    RoomsReadReceipt,
    RoomsSearch,
    RoomsShort,
    RoomsSpaces,
    RoomsState,
    RoomsStateAccessor,
    RoomsStateCache,
    RoomsStateCompressor,
    RoomsThreads,
    RoomsTimeline,
    RoomsTyping,
    RoomsUser,
    Federation,
    Sending,
    ServerKeys,
    Sync,
    TransactionIds,
    Uiaa,
    Users,
}

/// The number of services.
pub const NUM_SERVICES: usize = 39;

/// The order in which the services are built.
pub open spec fn build_order() -> Seq<ServiceKind> {
    seq![
        ServiceKind::AccountData,
        ServiceKind::Admin,
        ServiceKind::Appservice,
        ServiceKind::Resolver,
        ServiceKind::Client,
        ServiceKind::Config,
        ServiceKind::Emergency,
        ServiceKind::Globals,
        ServiceKind::KeyBackups,
        ServiceKind::Media,
        ServiceKind::Presence,
        ServiceKind::Pusher,
        ServiceKind::RoomsAlias,
        ServiceKind::RoomsAuthChain,
        ServiceKind::RoomsDirectory,
        ServiceKind::RoomsEventHandler,
        ServiceKind::RoomsLazyLoading,
        ServiceKind::RoomsMetadata,
        ServiceKind::RoomsOutlier,
        ServiceKind::RoomsPduMetadata,
        ServiceKind::RoomsReadReceipt,
        ServiceKind::RoomsSearch,
        ServiceKind::RoomsShort,
        ServiceKind::RoomsSpaces,
        ServiceKind::RoomsState,
        ServiceKind::RoomsStateAccessor,
        ServiceKind::RoomsStateCache,
        ServiceKind::RoomsStateCompressor,
        ServiceKind::RoomsThreads,
        ServiceKind::RoomsTimeline,
        ServiceKind::RoomsTyping,
        ServiceKind::RoomsUser,
        ServiceKind::Federation,
        ServiceKind::Sending,
        ServiceKind::ServerKeys,
        ServiceKind::Sync,
        ServiceKind::TransactionIds,
        ServiceKind::Uiaa,
        ServiceKind::Users,
    ]
}

/// The service that is built after `built` others.
pub fn service_to_build(built: usize) -> (r: ServiceKind)
    requires
        built < build_order().len(),
    ensures
        r == build_order()[built as int],
{
    let order = vec![
        ServiceKind::AccountData,
        ServiceKind::Admin,
        ServiceKind::Appservice,
        ServiceKind::Resolver,
        ServiceKind::Client,
        ServiceKind::Config,
        ServiceKind::Emergency,
        ServiceKind::Globals,
        ServiceKind::KeyBackups,
        ServiceKind::Media,
        ServiceKind::Presence,
        ServiceKind::Pusher,
        ServiceKind::RoomsAlias,
        ServiceKind::RoomsAuthChain,
        ServiceKind::RoomsDirectory,
        ServiceKind::RoomsEventHandler,
        ServiceKind::RoomsLazyLoading,
        ServiceKind::RoomsMetadata,
        ServiceKind::RoomsOutlier,
        ServiceKind::RoomsPduMetadata,
        ServiceKind::RoomsReadReceipt,
        ServiceKind::RoomsSearch,
        ServiceKind::RoomsShort,
        ServiceKind::RoomsSpaces,
        ServiceKind::RoomsState,
        ServiceKind::RoomsStateAccessor,
        ServiceKind::RoomsStateCache,
        ServiceKind::RoomsStateCompressor,
        ServiceKind::RoomsThreads,
        ServiceKind::RoomsTimeline,
        ServiceKind::RoomsTyping,
        ServiceKind::RoomsUser,
        ServiceKind::Federation,
        ServiceKind::Sending,
        ServiceKind::ServerKeys,
        ServiceKind::Sync,
        ServiceKind::TransactionIds,
        ServiceKind::Uiaa,
        ServiceKind::Users,
    ];
    order[built]
}

/// The building of the services.
pub enum Build<W> {
    /// Waits for the database to be opened.
    Database,
    /// Waits for a service to be built after `built` others.
    Service { built: usize, services: Services<W> },
    /// Has come to an end.
    Done,
}

/// What a [`Build`] asks for.
pub enum BuildRequest<W, E> {
    /// The database to be opened.
    OpenDatabase,
    /// A service to be built.
    BuildService(ServiceKind),
    /// Nothing: the building ends.
    Finish(Result<Services<W>, E>),
}

/// What comes back to a [`Build`].
pub enum BuildReply<W, E> {
    /// Whether the database was opened.
    Database(Result<(), E>),
    /// The name of the service that was built and what the registry keeps of it.
    Service(Result<(String, W), E>),
}

/// What a [`Build`] holds.
pub enum BuildView<W> {
    Database,
    Service { built: int, services: Map<Seq<char>, W> },
    Done,
}

/// What a [`BuildRequest`] says.
pub enum BuildRequestView<W, E> {
    OpenDatabase,
    BuildService(ServiceKind),
    Finish(Result<Map<Seq<char>, W>, E>),
}

/// What a [`BuildReply`] says.
pub enum BuildReplyView<W, E> {
    Database(Result<(), E>),
    Service(Result<(Seq<char>, W), E>),
}

impl<W> View for Build<W> {
    type V = BuildView<W>;

    open spec fn view(&self) -> BuildView<W> {
        match self {
            Build::Database => BuildView::Database,
            Build::Service { built, services } => BuildView::Service {
                built: *built as int,
                services: services@,
            },
            Build::Done => BuildView::Done,
        }
    }
}

impl<W, E> View for BuildRequest<W, E> {
    type V = BuildRequestView<W, E>;

    open spec fn view(&self) -> BuildRequestView<W, E> {
        match self {
            BuildRequest::OpenDatabase => BuildRequestView::OpenDatabase,
            BuildRequest::BuildService(kind) => BuildRequestView::BuildService(*kind),
            BuildRequest::Finish(Ok(services)) => BuildRequestView::Finish(Ok(services@)),
            BuildRequest::Finish(Err(error)) => BuildRequestView::Finish(Err(*error)),
        }
    }
}

impl<W, E> View for BuildReply<W, E> {
    type V = BuildReplyView<W, E>;

    open spec fn view(&self) -> BuildReplyView<W, E> {
        match self {
            BuildReply::Database(result) => BuildReplyView::Database(*result),
            BuildReply::Service(Ok((name, entry))) => BuildReplyView::Service(Ok((name@, *entry))),
            BuildReply::Service(Err(error)) => BuildReplyView::Service(Err(*error)),
        }
    }
}

impl<W> BuildView<W> {
    /// The building goes on with this reply.
    pub open spec fn awaits<E>(self, reply: BuildReplyView<W, E>) -> bool {
        match self {
            BuildView::Database => reply is Database,
            BuildView::Service { built, .. } => 0 <= built < build_order().len() && reply is Service,
            BuildView::Done => false,
        }
    }

    /// How the building goes on with a reply: each service that was built is registered before
    /// the next is built, and the first failure ends it.
    pub open spec fn next<E>(self, reply: BuildReplyView<W, E>) -> (
        BuildView<W>,
        BuildRequestView<W, E>,
    )
        recommends
            self.awaits(reply),
    {
        match (self, reply) {
            (BuildView::Database, BuildReplyView::Database(Ok(_))) => (
                BuildView::Service { built: 0, services: Map::empty() },
                BuildRequestView::BuildService(build_order()[0]),
            ),
            (
                BuildView::Service { built, services },
                BuildReplyView::Service(Ok((name, entry))),
            ) => if built + 1 < build_order().len() {
                (
                    BuildView::Service { built: built + 1, services: services.insert(name, entry) },
                    BuildRequestView::BuildService(build_order()[built + 1]),
                )
            } else {
                (BuildView::Done, BuildRequestView::Finish(Ok(services.insert(name, entry))))
            },
            (_, BuildReplyView::Database(Err(error))) => (
                BuildView::Done,
                BuildRequestView::Finish(Err(error)),
            ),
            (_, BuildReplyView::Service(Err(error))) => (
                BuildView::Done,
                BuildRequestView::Finish(Err(error)),
            ),
            _ => (BuildView::Done, BuildRequestView::OpenDatabase),
        }
    }
}

impl<W> Services<W> {
    /// Starts to build the services: asks for the database to be opened.
    pub fn build<E>() -> (r: (Build<W>, BuildRequest<W, E>))
        ensures
            r.0@ == BuildView::<W>::Database,
            r.1@ == BuildRequestView::<W, E>::OpenDatabase,
    {
        (Build::Database, BuildRequest::OpenDatabase)
    }
}

impl<W> Build<W> {
    /// Goes on with a reply.
    pub fn step<E>(self, reply: BuildReply<W, E>) -> (r: (Build<W>, BuildRequest<W, E>))
        requires
            self@.awaits(reply@),
        ensures
            (r.0@, r.1@) == self@.next(reply@),
    {
        match (self, reply) {
            (Build::Database, BuildReply::Database(Ok(_))) => {
                (
                    Build::Service { built: 0, services: Services::new() },
                    BuildRequest::BuildService(service_to_build(0)),
                )
            },
            (Build::Service { built, services }, BuildReply::Service(Ok((name, entry)))) => {
                let mut services = services;
                services.add_service(name, entry);
                if built + 1 < NUM_SERVICES {
                    (
                        Build::Service { built: built + 1, services },
                        BuildRequest::BuildService(service_to_build(built + 1)),
                    )
                } else {
                    (Build::Done, BuildRequest::Finish(Ok(services)))
                }
            },
            (_, BuildReply::Database(Err(error))) => {
                (Build::Done, BuildRequest::Finish(Err(error)))
            },
            (_, BuildReply::Service(Err(error))) => {
                (Build::Done, BuildRequest::Finish(Err(error)))
            },
            _ => unreached(),
        }
    }
}

/// What is registered after `built` were built, each in place of one with the same name.
pub open spec fn registered<W>(built: Seq<(Seq<char>, W)>) -> Map<Seq<char>, W>
    decreases built.len(),
{
    if built.len() == 0 {
        Map::empty()
    } else {
        registered(built.drop_last()).insert(built.last().0, built.last().1)
    }
}

/// Where the building stands once the database was opened and `built` were built.
pub open spec fn build_run<W, E>(built: Seq<(Seq<char>, W)>) -> (
    BuildView<W>,
    BuildRequestView<W, E>,
)
    decreases built.len(),
{
    if built.len() == 0 {
        BuildView::Database.next(BuildReplyView::Database(Ok(())))
    } else {
        build_run::<W, E>(built.drop_last()).0.next(BuildReplyView::Service(Ok(built.last())))
    }
}

/// Every service is built once, in the order of [`build_order`], and the building ends with all
/// of them registered.
pub proof fn build_registers_every_service<W, E>(built: Seq<(Seq<char>, W)>)
    requires
        built.len() <= build_order().len(),
    ensures
        built.len() < build_order().len() ==> build_run::<W, E>(built) == (
            BuildView::Service { built: built.len() as int, services: registered(built) },
            BuildRequestView::<W, E>::BuildService(build_order()[built.len() as int]),
        ),
        built.len() == build_order().len() ==> build_run::<W, E>(built) == (
            BuildView::<W>::Done,
            BuildRequestView::<W, E>::Finish(Ok(registered(built))),
        ),
    decreases built.len(),
{
    if built.len() > 0 {
        build_registers_every_service::<W, E>(built.drop_last());
    }
}

/// A database that is not opened ends the building with its error, and so does a service that is not
/// built, whatever was built before it.
pub proof fn building_ends_with_the_first_error<W, E>(built: Seq<(Seq<char>, W)>, error: E)
    requires
        built.len() < build_order().len(),
    ensures
        BuildView::<W>::Database.next(BuildReplyView::Database(Err(error))) == (
            BuildView::<W>::Done,
            BuildRequestView::<W, E>::Finish(Err(error)),
        ),
        build_run::<W, E>(built).0.next(BuildReplyView::Service(Err(error))) == (
            BuildView::<W>::Done,
            BuildRequestView::<W, E>::Finish(Err(error)),
        ),
{
    build_registers_every_service::<W, E>(built);
}

/// Every service that was built is registered under its name, and nothing else is.
pub proof fn registered_under_their_names<W>(built: Seq<(Seq<char>, W)>, name: Seq<char>)
    ensures
        registered(built).contains_key(name) <==> exists|i: int|
            0 <= i < built.len() && (#[trigger] built[i]).0 == name,
    decreases built.len(),
{
    if built.len() > 0 {
        let fewer = built.drop_last();
        registered_under_their_names(fewer, name);
        if registered(fewer).contains_key(name) {
            let i = choose|i: int| 0 <= i < fewer.len() && (#[trigger] fewer[i]).0 == name;
            assert(built[i].0 == name);
        }
        if exists|i: int| 0 <= i < built.len() && (#[trigger] built[i]).0 == name {
            let i = choose|i: int| 0 <= i < built.len() && (#[trigger] built[i]).0 == name;
            if i < fewer.len() {
                assert(fewer[i].0 == name);
            }
        }
        if built.last().0 == name {
            assert(built[built.len() - 1].0 == name);
        }
    }
}

/// No service is built twice.
pub proof fn build_order_has_no_duplicates()
    ensures
        build_order().no_duplicates(),
        build_order().len() == NUM_SERVICES,
{
}

/// How many services are built before `kind`.
pub open spec fn built_before(kind: ServiceKind) -> int {
    match kind {
        ServiceKind::AccountData => 0,
        ServiceKind::Admin => 1,
        ServiceKind::Appservice => 2,
        ServiceKind::Resolver => 3,
        ServiceKind::Client => 4,
        ServiceKind::Config => 5,
        ServiceKind::Emergency => 6,
        ServiceKind::Globals => 7,
        ServiceKind::KeyBackups => 8,
        ServiceKind::Media => 9,
        ServiceKind::Presence => 10,
        ServiceKind::Pusher => 11,
        ServiceKind::RoomsAlias => 12,
        ServiceKind::RoomsAuthChain => 13,
        ServiceKind::RoomsDirectory => 14,
        ServiceKind::RoomsEventHandler => 15,
        ServiceKind::RoomsLazyLoading => 16,
        ServiceKind::RoomsMetadata => 17,
        ServiceKind::RoomsOutlier => 18,
        ServiceKind::RoomsPduMetadata => 19,
        ServiceKind::RoomsReadReceipt => 20,
        ServiceKind::RoomsSearch => 21,
        ServiceKind::RoomsShort => 22,
        ServiceKind::RoomsSpaces => 23,
        ServiceKind::RoomsState => 24,
        ServiceKind::RoomsStateAccessor => 25,
        ServiceKind::RoomsStateCache => 26,
        ServiceKind::RoomsStateCompressor => 27,
        ServiceKind::RoomsThreads => 28,
        ServiceKind::RoomsTimeline => 29,
        ServiceKind::RoomsTyping => 30,
        ServiceKind::RoomsUser => 31,
        ServiceKind::Federation => 32,
        ServiceKind::Sending => 33,
        ServiceKind::ServerKeys => 34,
        ServiceKind::Sync => 35,
        ServiceKind::TransactionIds => 36,
        ServiceKind::Uiaa => 37,
        ServiceKind::Users => 38,
    }
}

/// Every service has its place: it is asked to be built when so many services are built as come
/// before it, and not before or after.
pub proof fn every_service_is_built_in_its_place<W, E>(
    built: Seq<(Seq<char>, W)>,
    kind: ServiceKind,
)
    requires
        built.len() <= 39,
    ensures
        0 <= built_before(kind) < 39,
        build_run::<W, E>(built).1 == BuildRequestView::<W, E>::BuildService(kind)
            <==> built.len() == built_before(kind),
{
    build_registers_every_service::<W, E>(built);
    assert(build_order()[built_before(kind)] == kind);
    build_order_has_no_duplicates();
}

/// The building succeeds once every service is built, and only then; what it gives holds, under each
/// name, what was built last with that name, and holds no other name.
pub proof fn building_gives_what_was_built<W, E>(
    built: Seq<(Seq<char>, W)>,
    name: Seq<char>,
    entry: W,
)
    requires
        built.len() <= 39,
    ensures
        (build_run::<W, E>(built).1 matches BuildRequestView::Finish(Ok(_))) <==> built.len() == 39,
        build_run::<W, E>(built).1 matches BuildRequestView::Finish(Ok(services)) ==> (
        services.contains_pair(name, entry) <==> exists|i: int|
            0 <= i < built.len() && #[trigger] built[i] == (name, entry) && forall|j: int|
                i < j < built.len() ==> (#[trigger] built[j]).0 != name),
{
    build_registers_every_service::<W, E>(built);
    registered_is_what_was_built_last(built, name, entry);
}

/// What is registered under a name is what was built last with it.
pub proof fn registered_is_what_was_built_last<W>(
    built: Seq<(Seq<char>, W)>,
    name: Seq<char>,
    entry: W,
)
    ensures
        registered(built).contains_pair(name, entry) <==> exists|i: int|
            0 <= i < built.len() && #[trigger] built[i] == (name, entry) && forall|j: int|
                i < j < built.len() ==> (#[trigger] built[j]).0 != name,
    decreases built.len(),
{
    if built.len() > 0 {
        let fewer = built.drop_last();
        let last = built[built.len() - 1];
        registered_is_what_was_built_last(fewer, name, entry);
        assert(forall|i: int| 0 <= i < fewer.len() ==> fewer[i] == built[i]);
        if last.0 != name {
            if registered(fewer).contains_pair(name, entry) {
                let i = choose|i: int|
                    0 <= i < fewer.len() && #[trigger] fewer[i] == (name, entry) && forall|j: int|
                        i < j < fewer.len() ==> (#[trigger] fewer[j]).0 != name;
                assert(built[i] == (name, entry));
                assert forall|j: int| i < j < built.len() implies (#[trigger] built[j]).0 != name by {
                    if j < fewer.len() {
                        assert(fewer[j] == built[j]);
                    }
                }
            }
            if exists|i: int|
                0 <= i < built.len() && #[trigger] built[i] == (name, entry) && forall|j: int|
                    i < j < built.len() ==> (#[trigger] built[j]).0 != name {
                let i = choose|i: int|
                    0 <= i < built.len() && #[trigger] built[i] == (name, entry) && forall|j: int|
                        i < j < built.len() ==> (#[trigger] built[j]).0 != name;
                assert(fewer[i] == (name, entry));
            }
        }
    }
}

} // verus!
