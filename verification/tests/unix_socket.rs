use tuwunel::unix_socket::directory_of;
use tuwunel::unix_socket::fini::fini;
use tuwunel::unix_socket::fini::FiniReply;
use tuwunel::unix_socket::fini::FiniRequest;
use tuwunel::unix_socket::fini::FINI_POLL_INTERVAL_MS;
use tuwunel::unix_socket::init::init;
use tuwunel::unix_socket::init::InitError;
use tuwunel::unix_socket::init::InitReply;
use tuwunel::unix_socket::init::InitRequest;
use tuwunel::unix_socket::octal_permissions;
use tuwunel::unix_socket::serve::serve;
use tuwunel::unix_socket::serve::ServeReply;
use tuwunel::unix_socket::serve::ServeRequest;
use tuwunel::unix_socket::socket_directory;

fn done() -> InitReply {
    InitReply::Outcome(Ok(()))
}

fn failed() -> InitReply {
    InitReply::Outcome(Err("denied".to_owned()))
}

fn opening(path: &str, replies: Vec<InitReply>) -> Vec<String> {
    let (mut state, mut request) = init(path, 660);
    let mut asked = vec![];
    let mut replies = replies.into_iter();
    loop {
        asked.push(match &request {
            InitRequest::CheckExisting { path } => format!("check {path}"),
            InitRequest::RemoveExisting { path } => format!("remove {path}"),
            InitRequest::CreateDirectory { directory } => format!("create {directory}"),
            InitRequest::Bind { path } => format!("bind {path}"),
            InitRequest::SetPermissions { path, mode } => format!("set {path} {mode:o}"),
            InitRequest::Finish(Ok(())) => "finish".to_owned(),
            InitRequest::Finish(Err(error)) => error.message(),
        });
        match replies.next() {
            Some(reply) => (state, request) = state.step(reply),
            None => return asked,
        }
    }
}

fn serving(replies: Vec<ServeReply<&'static str>>) -> Vec<String> {
    let (mut state, mut request) = serve();
    let mut asked = vec![];
    let mut replies = replies.into_iter();
    loop {
        asked.push(match &request {
            ServeRequest::Open => "open".to_owned(),
            ServeRequest::CheckRunning => "check".to_owned(),
            ServeRequest::Accept => "accept".to_owned(),
            ServeRequest::SpawnTask => "spawn".to_owned(),
            ServeRequest::JoinTask => "join".to_owned(),
            ServeRequest::End => "end".to_owned(),
            ServeRequest::Finish(result) => format!("finish {result:?}"),
        });
        match replies.next() {
            Some(reply) => (state, request) = state.step(reply),
            None => return asked,
        }
    }
}

fn ending(local: Result<Option<String>, String>, replies: &[FiniReply]) -> Vec<String> {
    let (mut state, mut request) = fini(local);
    let mut asked = vec![];
    let mut replies = replies.iter();
    loop {
        asked.push(match &request {
            FiniRequest::CloseListener => "close".to_owned(),
            FiniRequest::CountActive => "count".to_owned(),
            FiniRequest::WaitForTask { milliseconds } => format!("wait {milliseconds}"),
            FiniRequest::ShutdownTasks => "shut down".to_owned(),
            FiniRequest::RemoveFile { path } => format!("remove {path}"),
            FiniRequest::Finish => "finish".to_owned(),
        });
        match replies.next() {
            Some(reply) => (state, request) = state.step(*reply),
            None => return asked,
        }
    }
}

#[test]
fn permissions_are_spelled_in_octal() {
    assert_eq!(octal_permissions(660), Some(0o660));
    assert_eq!(octal_permissions(777), Some(0o777));
    assert_eq!(octal_permissions(0), Some(0));
    assert_eq!(octal_permissions(7), Some(7));
    assert_eq!(octal_permissions(10), Some(8));
    assert_eq!(octal_permissions(1777), Some(0o1777));
    assert_eq!(octal_permissions(680), None);
    assert_eq!(octal_permissions(900), None);
    assert_eq!(octal_permissions(8), None);
    for perms in [0, 5, 10, 644, 660, 777, 4_000_000_007] {
        assert_eq!(octal_permissions(perms), u32::from_str_radix(&perms.to_string(), 8).ok());
    }
}

#[test]
fn different_numbers_spell_different_permissions() {
    assert_ne!(octal_permissions(600), octal_permissions(660));
}

#[test]
fn socket_stands_in_the_parent_of_its_path() {
    assert_eq!(socket_directory("/run/tuwunel/tuwunel.sock"), "/run/tuwunel");
    assert_eq!(socket_directory("/tuwunel.sock"), "/");
    assert_eq!(socket_directory("tuwunel.sock"), "");
    assert_eq!(socket_directory("/"), "/");
    assert_eq!(socket_directory(""), "/");
    assert_eq!(directory_of(None), "/");
    assert_eq!(directory_of(Some("/srv".to_owned())), "/srv");
}

#[test]
fn socket_is_opened_step_by_step() {
    assert_eq!(
        opening("/run/t.sock", vec![InitReply::Existing(false), done(), done(), done()]),
        ["check /run/t.sock", "create /run", "bind /run/t.sock", "set /run/t.sock 660", "finish"],
    );
}

#[test]
fn socket_left_over_is_removed_first() {
    assert_eq!(
        opening("/run/t.sock", vec![InitReply::Existing(true), done(), done(), done(), done()]),
        [
            "check /run/t.sock",
            "remove /run/t.sock",
            "create /run",
            "bind /run/t.sock",
            "set /run/t.sock 660",
            "finish",
        ],
    );
}

#[test]
fn directory_that_cannot_be_made_ends_the_opening() {
    let asked = opening("/run/t.sock", vec![InitReply::Existing(false), failed()]);
    assert_eq!(
        asked.last().unwrap(),
        r#"Failed to create "/run" for socket "/run/t.sock": denied"#,
    );
}

#[test]
fn socket_that_cannot_be_bound_ends_the_opening() {
    let asked = opening("/run/t.sock", vec![InitReply::Existing(false), done(), failed()]);
    assert_eq!(asked.last().unwrap(), r#"Failed to bind listener "/run/t.sock": denied"#);
}

#[test]
fn permissions_that_cannot_be_set_end_the_opening() {
    let asked = opening("/run/t.sock", vec![InitReply::Existing(false), done(), done(), failed()]);
    assert_eq!(asked.last().unwrap(), r#"Failed to set socket "/run/t.sock" permissions: denied"#);
}

#[test]
fn message_has_the_paths_as_they_are_written() {
    let error = InitError::Bind { path: "a\"b".to_owned(), cause: "in use".to_owned() };
    assert_eq!(error.message(), "Failed to bind listener \"a\\\"b\": in use");
    assert_eq!(error.message_with("", "<p>"), "Failed to bind listener <p>: in use");
    let error = InitError::CreateDirectory {
        directory: "/d".to_owned(),
        path: "/d/s".to_owned(),
        cause: "full".to_owned(),
    };
    assert_eq!(error.message_with("<d>", "<p>"), "Failed to create <d> for socket <p>: full");
}

#[test]
fn serving_fails_where_the_socket_is_not_opened() {
    assert_eq!(serving(vec![ServeReply::Opened(Err("in use"))]), ["open", "finish Err(\"in use\")"]);
}

#[test]
fn connections_are_served_until_the_signal_comes() {
    assert_eq!(
        serving(
            vec![
                ServeReply::Opened(Ok(())),
                ServeReply::Running(true),
                ServeReply::Accepted,
                ServeReply::Spawned,
                ServeReply::Joined(true),
                ServeReply::Joined(false),
                ServeReply::Running(true),
                ServeReply::AcceptFailed,
                ServeReply::Running(true),
                ServeReply::Shutdown,
                ServeReply::Ended,
            ],
        ),
        [
            "open", "check", "accept", "spawn", "join", "join", "check", "accept", "check", "accept",
            "end", "finish Ok(())",
        ],
    );
}

#[test]
fn serving_ends_once_the_server_is_not_running() {
    assert_eq!(
        serving(vec![ServeReply::Opened(Ok(())), ServeReply::Running(false), ServeReply::Ended]),
        ["open", "check", "end", "finish Ok(())"],
    );
}

#[test]
fn end_waits_while_requests_are_handled() {
    assert_eq!(
        ending(
            Ok(Some("/run/t.sock".to_owned())),
            &[
                FiniReply::Done,
                FiniReply::Active(2),
                FiniReply::Slept,
                FiniReply::Active(1),
                FiniReply::TaskEnded,
                FiniReply::Active(0),
                FiniReply::Done,
                FiniReply::Done,
            ],
        ),
        [
            "close", "count", "wait 750", "count", "wait 750", "count", "shut down",
            "remove /run/t.sock", "finish",
        ],
    );
    assert_eq!(FINI_POLL_INTERVAL_MS, 750);
}

#[test]
fn end_does_not_wait_without_tasks() {
    let replies = [FiniReply::Done, FiniReply::Active(1), FiniReply::NoTask, FiniReply::Done];
    let asked = ["close", "count", "wait 750", "shut down", "finish"];
    assert_eq!(ending(Ok(None), &replies), asked);
    assert_eq!(ending(Err("unknown".to_owned()), &replies), asked);
}
