use tuwunel::error::Error;
use tuwunel::services::building::service_to_build;
use tuwunel::services::building::BuildReply;
use tuwunel::services::building::BuildRequest;
use tuwunel::services::building::ServiceKind;
use tuwunel::services::building::NUM_SERVICES;
use tuwunel::services::lifecycle::Presence;
use tuwunel::services::lifecycle::PresenceConfig;
use tuwunel::services::lifecycle::StartRequest;
use tuwunel::services::lifecycle::StopRequest;
use tuwunel::services::queries::MemoryRequest;
use tuwunel::services::Services;

const KEPT: PresenceConfig = PresenceConfig { allow_local_presence: true, read_only: false };
const NOT_ALLOWED: PresenceConfig = PresenceConfig { allow_local_presence: false, read_only: false };
const READ_ONLY: PresenceConfig = PresenceConfig { allow_local_presence: true, read_only: true };

fn three_services() -> Services<u8> {
    let mut services = Services::new();
    services.add_service("media".to_owned(), 1);
    services.add_service("admin".to_owned(), 2);
    services.add_service("users".to_owned(), 3);
    services
}

fn start_requests(config: PresenceConfig, results: &[Result<(), &'static str>]) -> Vec<String> {
    let services = three_services();
    let (mut state, mut request) = services.start::<&'static str>();
    let mut asked = vec![];
    let mut results = results.iter();
    loop {
        asked.push(match &request {
            StartRequest::SetAdminServices => "set admin services".to_owned(),
            StartRequest::Migrate => "migrate".to_owned(),
            StartRequest::StartManager => "start manager".to_owned(),
            StartRequest::UnsetAllPresence => "unset all presence".to_owned(),
            StartRequest::PingPresence(presence) => format!("ping {presence:?}"),
            StartRequest::Finish(result) => format!("finish {result:?}"),
        });
        if matches!(request, StartRequest::Finish(_)) {
            return asked;
        }
        let result = results.next().copied().unwrap_or(Ok(()));
        (state, request) = state.step(config, result);
    }
}

fn stop_requests(config: PresenceConfig, has_manager: bool) -> Vec<StopRequest> {
    let services = three_services();
    let (mut state, mut request) = services.stop(config);
    let mut asked = vec![];
    loop {
        asked.push(request);
        if request == StopRequest::Finish {
            return asked;
        }
        (state, request) = state.step(has_manager);
    }
}

#[test]
fn services_stand_in_the_order_of_their_names() {
    let services = three_services();
    let names: Vec<&str> = services.entries().iter().map(|entry| entry.0.as_str()).collect();
    assert_eq!(names, ["admin", "media", "users"]);
}

#[test]
fn later_service_takes_the_place_of_one_with_its_name() {
    let mut services = three_services();
    services.add_service("media".to_owned(), 9);
    assert_eq!(services.get("media"), Some(&9));
    assert_eq!(services.entries().len(), 3);
}

#[test]
fn services_are_found_by_name() {
    let services = three_services();
    assert_eq!(services.get("admin"), Some(&2));
    assert_eq!(services.get("adm"), None);
    assert_eq!(services.try_get("users"), Ok(&3));
    assert_eq!(services.try_get("sync"), Err(Error::NotFound("sync".to_owned())));
}

#[test]
fn building_opens_the_database_and_then_builds_every_service() {
    let (mut state, mut request) = Services::<usize>::build::<&'static str>();
    assert!(matches!(request, BuildRequest::OpenDatabase));
    (state, request) = state.step(BuildReply::Database(Ok(())));
    let mut kinds = vec![];
    let services = loop {
        match request {
            BuildRequest::BuildService(kind) => {
                kinds.push(kind);
                let entry = (format!("{kind:?}"), kinds.len());
                (state, request) = state.step(BuildReply::Service(Ok(entry)));
            },
            BuildRequest::Finish(Ok(services)) => break services,
            _ => panic!("unexpected request"),
        }
    };
    assert_eq!(kinds.len(), NUM_SERVICES);
    assert_eq!(NUM_SERVICES, 39);
    assert_eq!(kinds[0], ServiceKind::AccountData);
    assert_eq!(kinds[3], ServiceKind::Resolver);
    assert_eq!(kinds[12], ServiceKind::RoomsAlias);
    assert_eq!(kinds[31], ServiceKind::RoomsUser);
    assert_eq!(kinds[38], ServiceKind::Users);
    assert_eq!(service_to_build(4), ServiceKind::Client);
    for (i, kind) in kinds.iter().enumerate() {
        assert!(!kinds[..i].contains(kind));
        assert_eq!(services.get(&format!("{kind:?}")), Some(&(i + 1)));
    }
}

#[test]
fn building_ends_with_the_first_failure() {
    let (state, _) = Services::<u8>::build::<&'static str>();
    let (_, request) = state.step(BuildReply::Database(Err("no database")));
    assert!(matches!(request, BuildRequest::Finish(Err("no database"))));
    let (state, _) = Services::<u8>::build::<&'static str>();
    let (state, _) = state.step::<&'static str>(BuildReply::Database(Ok(())));
    let entry = ("account_data".to_owned(), 1);
    let (state, _) = state.step::<&'static str>(BuildReply::Service(Ok(entry)));
    let (_, request) = state.step(BuildReply::Service(Err("no admin")));
    assert!(matches!(request, BuildRequest::Finish(Err("no admin"))));
}

#[test]
fn start_sets_presence_where_it_is_kept() {
    assert_eq!(
        start_requests(KEPT, &[]),
        [
            "set admin services",
            "migrate",
            "start manager",
            "unset all presence",
            "ping Online",
            "finish Ok(())",
        ],
    );
    for config in [NOT_ALLOWED, READ_ONLY] {
        assert_eq!(
            start_requests(config, &[]),
            ["set admin services", "migrate", "start manager", "finish Ok(())"],
        );
    }
}

#[test]
fn start_ends_with_a_migration_or_a_manager_that_fails() {
    assert_eq!(
        start_requests(KEPT, &[Ok(()), Err("old")]),
        ["set admin services", "migrate", "finish Err(\"old\")"],
    );
    assert_eq!(
        start_requests(KEPT, &[Ok(()), Ok(()), Err("busy")]),
        ["set admin services", "migrate", "start manager", "finish Err(\"busy\")"],
    );
}

#[test]
fn presence_that_fails_to_be_set_does_not_end_the_start() {
    let asked = start_requests(KEPT, &[Ok(()), Ok(()), Ok(()), Ok(()), Err("no ping")]);
    assert_eq!(asked.last().unwrap(), "finish Ok(())");
}

#[test]
fn stop_goes_offline_interrupts_and_stops_the_manager() {
    assert_eq!(
        stop_requests(KEPT, true),
        [
            StopRequest::PingPresence(Presence::Offline),
            StopRequest::Interrupt,
            StopRequest::StopManager,
            StopRequest::ClearAdminServices,
            StopRequest::Finish,
        ],
    );
    for config in [NOT_ALLOWED, READ_ONLY] {
        assert_eq!(
            stop_requests(config, false),
            [StopRequest::Interrupt, StopRequest::ClearAdminServices, StopRequest::Finish],
        );
    }
}

#[test]
fn poll_gives_what_the_manager_gave() {
    let services = three_services();
    assert_eq!(services.poll(Some(Err("stopped"))), Err("stopped"));
    assert_eq!(services.poll(Some(Ok::<(), &str>(()))), Ok(()));
    assert_eq!(services.poll(None::<Result<(), &str>>), Ok(()));
}

#[test]
fn only_services_that_are_alive_are_asked() {
    let services = three_services();
    assert_eq!(services.services(vec![Some('a'), None, Some('c')]), ['a', 'c']);
    assert_eq!(services.clear_cache(vec![None, None, Some('c')]), ['c']);
    assert_eq!(
        services.interrupt(vec![None, Some('b'), Some('c')]),
        [("media".to_owned(), 'b'), ("users".to_owned(), 'c')],
    );
}

#[test]
fn reports_stand_one_after_the_other() {
    let services = three_services();
    let (mut state, mut request) = services.memory_usage::<_, &str>(vec![Some('a'), None, Some('c')]);
    let mut asked = vec![];
    let text = loop {
        match request {
            MemoryRequest::Report { service, mut out } => {
                asked.push(service);
                out.push(service);
                out.push('\n');
                (state, request) = state.step(Ok(out));
            },
            MemoryRequest::Finish(Ok(text)) => break text,
            MemoryRequest::Finish(Err(error)) => panic!("{error}"),
        }
    };
    assert_eq!(asked, ['a', 'c']);
    assert_eq!(text, "a\nc\n");
}

#[test]
fn report_that_fails_ends_the_collecting() {
    let services = three_services();
    let (state, request) = services.memory_usage::<_, &str>(vec![Some('a'), Some('b'), Some('c')]);
    assert!(matches!(request, MemoryRequest::Report { service: 'a', .. }));
    let (_, request) = state.step(Err("no report"));
    assert!(matches!(request, MemoryRequest::Finish(Err("no report"))));
    let (_, request) = services.memory_usage::<char, &str>(vec![None, None, None]);
    match request {
        MemoryRequest::Finish(result) => assert_eq!(result, Ok(String::new())),
        MemoryRequest::Report { .. } => panic!("nobody to ask"),
    }
}
