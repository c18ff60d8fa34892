use sos::http::{
    abort_start, create_sandbox, create_sandbox_with_id, exec_cmd, expired, finish_session,
    finish_standalone, finish_start, get_trajectory, get_trajectory_formatted,
    join_setup_commands, list_sandboxes, reply, start_sandbox, stop_sandbox, CreatePayload,
    ExecPayload, ExecPlan, Registry, SandboxInfo, SessionReply, StopPayload, DEFAULT_BIND_PORT,
    DEFAULT_IDLE_TIMEOUT_SECONDS, DEFAULT_MAX_CONCURRENT_SANDBOXES,
};
use sos::sandbox::host::{ContainerState, ExecOutcome, Frame, StreamKind};
use sos::sandbox::io::ReadError;
use sos::sandbox::session::{Attempt, ShellOutcome};
use sos::sandbox::startup::{Launch, StartEvent, StartStep};
use sos::sandbox::types::{Error, Status};
use sos::sandbox::Sandbox;

type Reg = Registry<u32, ()>;

fn s(text: &str) -> String {
    text.to_string()
}

fn create(registry: &mut Reg, setup: &[&str]) -> String {
    let payload = CreatePayload {
        image: s("ubuntu:latest"),
        setup_commands: setup.iter().map(|c| c.to_string()).collect(),
    };
    create_sandbox(registry, payload).unwrap()
}

fn launch(registry: &Reg, id: &String) -> Launch<u32> {
    let mut startup = start_sandbox(registry, id, 1).ok().unwrap();
    let events = vec![
        StartEvent::ImagePresent,
        StartEvent::ContainerCreated(format!("container-of-{}", id)),
        StartEvent::ContainerStarted,
        StartEvent::Inspected(ContainerState {
            running: true,
            exit_code: None,
            error: s(""),
            status: s("running"),
        }),
        StartEvent::SetupDone(ExecOutcome::Finished { frames: Vec::new(), exit_code: 0 }),
        StartEvent::ShellAttached,
        StartEvent::Configured(ShellOutcome::Read(Ok(s("#PS1-x#:0:")))),
    ];
    for event in events {
        match startup.on_event(event) {
            StartStep::Next(next) => startup = next,
            StartStep::Ready(launch) => return launch,
            StartStep::Failed(failure) => panic!("{:?}", failure.error()),
        }
    }
    panic!("the start did not end");
}

fn start(registry: &mut Reg, id: &String, now: u64) {
    let launch = launch(registry, id);
    assert!(finish_start(registry, id, launch, (), now).is_ok());
}

fn session(registry: &mut Reg, id: &String, command: &str, now: u64) -> SessionReply {
    let payload = ExecPayload { command: s(command), standalone: None };
    match exec_cmd(registry, id, payload, now) {
        Ok(ExecPlan::Session(exchange)) => {
            let raw = format!("ran {}\n#PS1-{}#:0:", command, id);
            finish_session(registry, id, exchange, ShellOutcome::Read(Ok(raw)))
        }
        other => panic!("{:?}", other),
    }
}

fn info<'a>(list: &'a [SandboxInfo], id: &str) -> &'a SandboxInfo {
    list.iter().find(|i| i.id == id).unwrap()
}

const KEEP: StopPayload = StopPayload { remove: None };
const REMOVE: StopPayload = StopPayload { remove: Some(true) };

#[test]
fn setup_commands_are_joined_with_and() {
    assert_eq!(join_setup_commands(&Vec::new()), "");
    assert_eq!(join_setup_commands(&vec![s("cd /tmp")]), "cd /tmp");
    assert_eq!(
        join_setup_commands(&vec![s("cd /tmp"), s("echo 'Setting up' > /tmp/setup.txt")]),
        "cd /tmp && echo 'Setting up' > /tmp/setup.txt"
    );
    assert_eq!(join_setup_commands(&vec![s("a"), s(""), s("c")]), "a &&  && c");
}

#[test]
fn a_created_sandbox_is_listed_as_created() {
    let mut registry = Reg::new();
    assert!(list_sandboxes(&registry).is_empty());
    let id = create(&mut registry, &["cd /tmp", "echo 'Setting up' > /tmp/setup.txt"]);
    assert!(!id.is_empty());
    let list = list_sandboxes(&registry);
    assert_eq!(list.len(), 1);
    let listed = info(&list, &id);
    assert_eq!(listed.status, "created");
    assert_eq!(listed.image, "ubuntu:latest");
    assert_eq!(listed.setup_commands, "cd /tmp && echo 'Setting up' > /tmp/setup.txt");
    assert_eq!(listed.session_command_count, 0);
    assert_eq!(listed.last_standalone_exit_code, None);

    let other = create(&mut registry, &[]);
    assert_ne!(id, other);
    let list = list_sandboxes(&registry);
    assert_eq!(list.len(), 2);
    assert_eq!(registry.len(), 2);
    assert_eq!(info(&list, &other).status, "created");
    assert_eq!(info(&list, &other).setup_commands, "");
}

#[test]
fn the_registry_rejects_an_id_it_holds() {
    let mut registry = Reg::new();
    assert!(registry.insert(Sandbox::with_id(s("a"), s("one"), s(""))).is_ok());
    let rejected = registry.insert(Sandbox::with_id(s("a"), s("two"), s("")));
    assert_eq!(rejected.err().unwrap().image(), "two");
    assert_eq!(registry.len(), 1);
    assert_eq!(registry.get(&s("a")).unwrap().image(), "one");
    assert!(registry.get(&s("b")).is_none());
    assert_eq!(registry.remove(&s("a")).unwrap().image(), "one");
    assert!(registry.remove(&s("a")).is_none());
    assert_eq!(registry.len(), 0);
}

#[test]
fn the_listing_follows_the_life_of_a_sandbox() {
    let mut registry = Reg::new();
    let id = create(&mut registry, &["true"]);
    start(&mut registry, &id, 100);
    assert_eq!(info(&list_sandboxes(&registry), &id).status, "started");
    assert_eq!(info(&list_sandboxes(&registry), &id).last_standalone_exit_code, Some(0));

    assert!(matches!(session(&mut registry, &id, "ls", 200), SessionReply::Finished(Ok(_))));
    assert_eq!(info(&list_sandboxes(&registry), &id).session_command_count, 1);

    let payload = ExecPayload { command: s("exit"), standalone: Some(false) };
    let exchange = match exec_cmd(&mut registry, &id, payload, 300) {
        Ok(ExecPlan::Session(exchange)) => exchange,
        other => panic!("{:?}", other),
    };
    let raw = format!("#EXIT-{}#:\n#PS1-{}#:0:", id, id);
    match finish_session(&mut registry, &id, exchange, ShellOutcome::Read(Ok(raw))) {
        SessionReply::Finished(Ok(result)) => assert!(result.exited),
        other => panic!("{:?}", other),
    }
    assert_eq!(info(&list_sandboxes(&registry), &id).status, "exited");

    assert!(stop_sandbox(&mut registry, &id, &KEEP).is_ok());
    assert_eq!(info(&list_sandboxes(&registry), &id).status, "stopped");
}

#[test]
fn a_removed_sandbox_is_not_found_by_any_request() {
    let mut registry = Reg::new();
    let id = create(&mut registry, &[]);
    let other = create(&mut registry, &[]);
    start(&mut registry, &id, 1);
    assert_eq!(
        stop_sandbox(&mut registry, &id, &REMOVE).ok(),
        Some(format!("container-of-{}", id))
    );

    let plain = (404, s("Sandbox not found"));
    let with_id = (404, format!("Sandbox {} not found", id));
    assert_eq!(start_sandbox(&registry, &id, 1).err(), Some(plain.clone()));
    let payload = ExecPayload { command: s("echo 'test'"), standalone: None };
    assert_eq!(exec_cmd(&mut registry, &id, payload, 2).err(), Some(plain.clone()));
    let payload = ExecPayload { command: s("echo 'test'"), standalone: Some(true) };
    assert_eq!(exec_cmd(&mut registry, &id, payload, 2).err(), Some(plain.clone()));
    assert_eq!(stop_sandbox(&mut registry, &id, &REMOVE).err(), Some(with_id.clone()));
    assert_eq!(stop_sandbox(&mut registry, &id, &KEEP).err(), Some(with_id.clone()));
    assert_eq!(get_trajectory(&registry, &id, 3).err(), Some(with_id.clone()));
    assert_eq!(get_trajectory_formatted(&registry, &id).err(), Some(with_id));
    let outcome = ExecOutcome::Finished { frames: Vec::new(), exit_code: 0 };
    assert_eq!(finish_standalone(&mut registry, &id, outcome).err(), Some(plain));
    assert!(list_sandboxes(&registry).iter().all(|i| i.id != id));
    // The other sandbox is still there.
    assert_eq!(list_sandboxes(&registry).len(), 1);
    assert!(start_sandbox(&registry, &other, 1).is_ok());
}

#[test]
fn a_sandbox_that_was_never_created_is_not_found() {
    let mut registry = Reg::new();
    let id = s("non-existent-id");
    assert_eq!(start_sandbox(&registry, &id, 1).err().unwrap().0, 404);
    let payload = ExecPayload { command: s("echo 'test'"), standalone: None };
    assert_eq!(exec_cmd(&mut registry, &id, payload, 1).err().unwrap().0, 404);
    assert_eq!(stop_sandbox(&mut registry, &id, &REMOVE).err().unwrap().0, 404);
}

#[test]
fn a_removal_takes_the_sandbox_out_even_if_it_cannot_be_stopped() {
    let mut registry = Reg::new();
    let id = create(&mut registry, &[]);
    assert_eq!(
        stop_sandbox(&mut registry, &id, &REMOVE).err(),
        Some((400, s("Sandbox not started")))
    );
    assert!(list_sandboxes(&registry).is_empty());
    assert_eq!(stop_sandbox(&mut registry, &id, &REMOVE).err().unwrap().0, 404);
}

#[test]
fn the_second_stop_is_rejected() {
    let mut registry = Reg::new();
    let id = create(&mut registry, &[]);
    start(&mut registry, &id, 1);
    assert!(stop_sandbox(&mut registry, &id, &KEEP).is_ok());
    assert_eq!(
        stop_sandbox(&mut registry, &id, &StopPayload { remove: Some(false) }).err(),
        Some((400, s("Sandbox not started")))
    );
    assert_eq!(list_sandboxes(&registry).len(), 1);

    let id = create(&mut registry, &[]);
    start(&mut registry, &id, 1);
    assert!(stop_sandbox(&mut registry, &id, &REMOVE).is_ok());
    assert_eq!(stop_sandbox(&mut registry, &id, &KEEP).err().unwrap().0, 404);
}

#[test]
fn the_second_start_is_rejected() {
    let mut registry = Reg::new();
    let id = create(&mut registry, &[]);
    let first = launch(&registry, &id);
    let second = launch(&registry, &id);
    assert!(finish_start(&mut registry, &id, first, (), 1).is_ok());
    assert_eq!(
        finish_start(&mut registry, &id, second, (), 2).err(),
        Some((400, s("Sandbox already started")))
    );
    assert_eq!(
        start_sandbox(&registry, &id, 1).err(),
        Some((400, s("Sandbox already started")))
    );
    assert_eq!(registry.get(&id).unwrap().start_time(), Some(1));
}

#[test]
fn a_failed_start_is_reported_and_recorded() {
    let mut registry = Reg::new();
    let id = create(&mut registry, &["false"]);
    let startup = start_sandbox(&registry, &id, 1).ok().unwrap();
    let failure = match startup.on_event(StartEvent::ImagePresent) {
        StartStep::Next(startup) => match startup.on_event(StartEvent::CreateFailed(s("no space"))) {
            StartStep::Failed(failure) => failure,
            _ => panic!("did not fail"),
        },
        _ => panic!("did not go on"),
    };
    let reply = abort_start(&mut registry, &id, failure, false);
    assert_eq!(
        reply,
        (500, s("Failed to start container: no space. Exit code: None, Logs: "))
    );
    assert_eq!(info(&list_sandboxes(&registry), &id).status, "created");
}

#[test]
fn requests_are_told_apart_by_the_standalone_flag() {
    let mut registry = Reg::new();
    let id = create(&mut registry, &[]);
    let payload = ExecPayload { command: s("pwd"), standalone: Some(true) };
    assert_eq!(
        exec_cmd(&mut registry, &id, payload, 1).err(),
        Some((400, s("Sandbox not started")))
    );
    let payload = ExecPayload { command: s("pwd"), standalone: None };
    assert_eq!(
        exec_cmd(&mut registry, &id, payload, 1).err(),
        Some((400, s("Sandbox not started")))
    );
    start(&mut registry, &id, 1);

    let payload = ExecPayload { command: s("pwd"), standalone: Some(true) };
    match exec_cmd(&mut registry, &id, payload, 2) {
        Ok(ExecPlan::Standalone(request)) => {
            assert_eq!(request.cmd, vec![s("/bin/bash"), s("-c"), s("pwd")]);
            assert_eq!(request.container, format!("container-of-{}", id));
        }
        other => panic!("{:?}", other),
    }
    let outcome = ExecOutcome::Finished {
        frames: vec![Frame { stream: StreamKind::StdOut, message: b"/\n".to_vec() }],
        exit_code: 0,
    };
    let result = finish_standalone(&mut registry, &id, outcome).ok().unwrap();
    assert_eq!((result.output.as_str(), result.exit_code, result.exited), ("/\n", 0, false));
    // A standalone command is no part of the session.
    assert_eq!(info(&list_sandboxes(&registry), &id).session_command_count, 0);
    assert_eq!(
        finish_standalone(&mut registry, &id, ExecOutcome::CreateFailed(s("denied"))).err(),
        Some((500, s("Failed to create exec: denied")))
    );

    let payload = ExecPayload { command: s("pwd"), standalone: Some(false) };
    match exec_cmd(&mut registry, &id, payload, 3) {
        Ok(ExecPlan::Session(exchange)) => {
            assert_eq!(exchange.input, "pwd\n");
            assert_eq!(exchange.attempt, Attempt::Command);
        }
        other => panic!("{:?}", other),
    }
    assert_eq!(info(&list_sandboxes(&registry), &id).session_command_count, 1);
}

#[test]
fn a_session_request_that_times_out_is_retried_and_then_fails() {
    let mut registry = Reg::new();
    let id = create(&mut registry, &[]);
    start(&mut registry, &id, 1);
    let payload = ExecPayload { command: s("sleep infinity"), standalone: None };
    let mut exchange = match exec_cmd(&mut registry, &id, payload, 2) {
        Ok(ExecPlan::Session(exchange)) => exchange,
        other => panic!("{:?}", other),
    };
    let mut inputs = Vec::new();
    let reply = loop {
        inputs.push(exchange.input.clone());
        let timeout = ShellOutcome::Read(Err(ReadError::OverallTimeout));
        match finish_session(&mut registry, &id, exchange, timeout) {
            SessionReply::Retry(next) => exchange = next,
            SessionReply::Finished(result) => break result,
        }
    };
    assert_eq!(inputs, vec![s("sleep infinity\n"), s("\n"), s("\u{4}")]);
    assert_eq!(
        reply.err(),
        Some((
            504,
            s("Timeout waiting for marker: Marker not seen before timeout (possible incomplete input)")
        ))
    );
    assert_eq!(info(&list_sandboxes(&registry), &id).status, "started");
}

#[test]
fn session_failures_are_replied_with_their_codes() {
    let mut registry = Reg::new();
    let id = create(&mut registry, &[]);
    start(&mut registry, &id, 1);
    let begin = |registry: &mut Reg| {
        let payload = ExecPayload { command: s("ls"), standalone: None };
        match exec_cmd(registry, &id, payload, 2) {
            Ok(ExecPlan::Session(exchange)) => exchange,
            other => panic!("{:?}", other),
        }
    };
    let exchange = begin(&mut registry);
    match finish_session(&mut registry, &id, exchange, ShellOutcome::WriteFailed(s("pipe"))) {
        SessionReply::Finished(Err(reply)) => assert_eq!(reply, (500, s("Container write failed"))),
        other => panic!("{:?}", other),
    }
    let exchange = begin(&mut registry);
    match finish_session(&mut registry, &id, exchange, ShellOutcome::Read(Err(ReadError::StreamClosed))) {
        SessionReply::Finished(Err(reply)) => {
            assert_eq!(reply, (500, s("Container read failed: Stream closed unexpectedly")))
        }
        other => panic!("{:?}", other),
    }
    let exchange = begin(&mut registry);
    assert!(stop_sandbox(&mut registry, &id, &REMOVE).is_ok());
    match finish_session(&mut registry, &id, exchange, ShellOutcome::Read(Ok(s("")))) {
        SessionReply::Finished(Err(reply)) => assert_eq!(reply, (404, s("Sandbox not found"))),
        other => panic!("{:?}", other),
    }
}

#[test]
fn the_trajectory_counts_time_from_the_start() {
    let mut registry = Reg::new();
    let id = create(&mut registry, &[]);
    // Not started: no entries, and the report names the sandbox.
    let report = get_trajectory(&registry, &id, 50).ok().unwrap();
    assert_eq!(report.sandbox_id, id);
    assert_eq!(report.command_count, 0);
    assert!(report.trajectory.is_empty());

    start(&mut registry, &id, 1_000);
    assert!(matches!(session(&mut registry, &id, "one", 1_500), SessionReply::Finished(Ok(_))));
    assert!(matches!(session(&mut registry, &id, "two", 4_000), SessionReply::Finished(Ok(_))));
    // A command stamped before the start counts as submitted at the start.
    assert!(matches!(session(&mut registry, &id, "three", 10), SessionReply::Finished(Ok(_))));
    let payload = ExecPayload { command: s("four"), standalone: None };
    assert!(exec_cmd(&mut registry, &id, payload, 9_000).is_ok());

    let report = get_trajectory(&registry, &id, 77).ok().unwrap();
    assert_eq!(report.command_count, 4);
    let seen: Vec<(usize, &str, u64, Option<&str>)> = report
        .trajectory
        .iter()
        .map(|e| {
            (e.index, e.command.as_str(), e.timestamp, e.result.as_ref().map(|r| r.output.as_str()))
        })
        .collect();
    assert_eq!(
        seen,
        vec![
            (0, "one", 500, Some("ran one")),
            (1, "two", 3_000, Some("ran two")),
            (2, "three", 0, Some("ran three")),
            (3, "four", 8_000, None),
        ]
    );
    assert_eq!(
        get_trajectory_formatted(&registry, &id).ok().unwrap(),
        "$ one\nran one\n$ two\nran two\n$ three\nran three\n$ four\nStatus: Command started but no result recorded\n"
    );
}

#[test]
fn errors_are_replied_with_code_and_message() {
    assert_eq!(reply(&Error::NotStarted), (400, s("Sandbox not started")));
    assert_eq!(reply(&Error::AlreadyExited), (400, s("Sandbox session already exited")));
    assert_eq!(
        reply(&Error::TimeoutWaitingForMarker(s("x"))),
        (504, s("Timeout waiting for marker: x"))
    );
}

#[test]
fn a_session_that_exited_takes_no_more_commands() {
    let mut registry = Reg::new();
    let id = create(&mut registry, &[]);
    start(&mut registry, &id, 1);
    let payload = ExecPayload { command: s("echo hi; exit 7; echo bye"), standalone: None };
    let exchange = match exec_cmd(&mut registry, &id, payload, 2) {
        Ok(ExecPlan::Session(exchange)) => exchange,
        other => panic!("{:?}", other),
    };
    let raw = format!("hi\n#EXIT-{}#:\nbye\n#PS1-{}#:0:", id, id);
    match finish_session(&mut registry, &id, exchange, ShellOutcome::Read(Ok(raw))) {
        SessionReply::Finished(Ok(result)) => {
            assert_eq!(result.output, "hi");
            assert!(result.exited);
        }
        other => panic!("{:?}", other),
    }
    let payload = ExecPayload { command: s("ls"), standalone: None };
    assert_eq!(
        exec_cmd(&mut registry, &id, payload, 3).err(),
        Some((400, s("Sandbox session already exited")))
    );
    assert!(matches!(registry.get(&id).unwrap().get_status(), Status::Exited(_)));
    let payload = ExecPayload { command: s("echo 'Container still running'"), standalone: Some(true) };
    assert!(matches!(exec_cmd(&mut registry, &id, payload, 4), Ok(ExecPlan::Standalone(_))));
}

#[test]
fn sandboxes_expire_after_the_timeout() {
    let mut registry = Reg::new();
    let never_started = create(&mut registry, &[]);
    let old = create(&mut registry, &[]);
    let young = create(&mut registry, &[]);
    let exited = create(&mut registry, &[]);
    start(&mut registry, &old, 1_000);
    start(&mut registry, &young, 5_000);
    start(&mut registry, &exited, 500);
    let payload = ExecPayload { command: s("exit"), standalone: None };
    let exchange = match exec_cmd(&mut registry, &exited, payload, 600) {
        Ok(ExecPlan::Session(exchange)) => exchange,
        other => panic!("{:?}", other),
    };
    let raw = format!("#EXIT-{}#:\n#PS1-{}#:0:", exited, exited);
    assert!(matches!(
        finish_session(&mut registry, &exited, exchange, ShellOutcome::Read(Ok(raw))),
        SessionReply::Finished(Ok(_))
    ));

    assert_eq!(expired(&registry, 6_000, 10_000), Vec::<String>::new());
    // Longer than the timeout, not as long as the timeout.
    assert_eq!(expired(&registry, 6_000, 5_000), vec![exited.clone()]);
    assert_eq!(expired(&registry, 6_001, 5_000), vec![old.clone(), exited.clone()]);
    assert_eq!(
        expired(&registry, 100_000, 5_000),
        vec![old.clone(), young.clone(), exited.clone()]
    );
    // A clock that reads less than the start time expires nothing.
    assert_eq!(expired(&registry, 0, 0), Vec::<String>::new());
    assert!(!expired(&registry, u64::MAX, 0).contains(&never_started));

    for id in expired(&registry, 6_001, 5_000) {
        assert!(stop_sandbox(&mut registry, &id, &REMOVE).is_ok());
    }
    assert_eq!(list_sandboxes(&registry).len(), 2);
}

#[test]
fn the_defaults_are_ten_sandboxes_ten_minutes_and_port_3000() {
    assert_eq!(DEFAULT_MAX_CONCURRENT_SANDBOXES, 10);
    assert_eq!(DEFAULT_IDLE_TIMEOUT_SECONDS, 600);
    assert_eq!(DEFAULT_BIND_PORT, 3000);
}

#[test]
fn an_id_is_given_out_once() {
    let mut registry = Reg::new();
    let payload = || CreatePayload { image: s("alpine"), setup_commands: vec![s("a"), s("b")] };
    assert_eq!(create_sandbox_with_id(&mut registry, payload(), s("one")), Some(s("one")));
    assert_eq!(create_sandbox_with_id(&mut registry, payload(), s("two")), Some(s("two")));
    assert_eq!(create_sandbox_with_id(&mut registry, payload(), s("one")), None);
    let list = list_sandboxes(&registry);
    assert_eq!(list.len(), 2);
    assert_eq!(list[0].id, "one");
    assert_eq!(list[0].image, "alpine");
    assert_eq!(list[0].setup_commands, "a && b");
    assert_eq!(list[0].status, "created");
    assert_eq!(list[1].id, "two");
}

#[test]
fn a_fresh_id_never_meets_an_id_of_another_length() {
    let mut registry = Reg::new();
    let payload = || CreatePayload { image: s("alpine"), setup_commands: Vec::new() };
    for id in ["", "short", "an id that is longer than thirty-six characters"] {
        assert!(create_sandbox_with_id(&mut registry, payload(), s(id)).is_some());
    }
    for _ in 0..20 {
        let id = create_sandbox(&mut registry, payload()).unwrap();
        assert_eq!(id.chars().count(), 36);
    }
    assert_eq!(registry.len(), 23);
}
