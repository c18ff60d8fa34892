use sos::sandbox::host::{ContainerState, ExecOutcome, Frame, StreamKind};
use sos::sandbox::io::ReadError;
use sos::sandbox::session::ShellOutcome;
use sos::sandbox::startup::{
    Failure, StartAction, StartEvent, StartStep, Startup, CONFIGURE_IDLE_TIMEOUT, INSPECT_PAUSE,
    MAX_INSPECT_ATTEMPTS,
};
use sos::sandbox::types::{Error, Status};
use sos::sandbox::Sandbox;

type Box0 = Sandbox<u32, ()>;

fn s(text: &str) -> String {
    text.to_string()
}

fn sandbox(setup: &str) -> Box0 {
    Sandbox::with_id(s("sb"), s("ubuntu:latest"), s(setup))
}

fn begin(setup: &str) -> Startup<u32> {
    sandbox(setup).begin_start(7).ok().unwrap()
}

fn next(startup: Startup<u32>, event: StartEvent) -> Startup<u32> {
    match startup.on_event(event) {
        StartStep::Next(next) => next,
        StartStep::Ready(_) => panic!("ready"),
        StartStep::Failed(failure) => panic!("{:?}", failure.error()),
    }
}

fn fails(startup: Startup<u32>, event: StartEvent) -> Failure<u32> {
    match startup.on_event(event) {
        StartStep::Failed(failure) => failure,
        _ => panic!("did not fail"),
    }
}

fn state(running: bool) -> ContainerState {
    ContainerState { running, exit_code: Some(1), error: s("oom"), status: s("exited") }
}

fn running(setup: &str) -> Startup<u32> {
    let startup = begin(setup);
    let startup = next(startup, StartEvent::ImagePresent);
    let startup = next(startup, StartEvent::ContainerCreated(s("cid")));
    let startup = next(startup, StartEvent::ContainerStarted);
    next(startup, StartEvent::Inspected(state(true)))
}

fn setup_done(code: i64, output: &str) -> StartEvent {
    StartEvent::SetupDone(ExecOutcome::Finished {
        frames: vec![Frame { stream: StreamKind::StdErr, message: output.as_bytes().to_vec() }],
        exit_code: code,
    })
}

#[test]
fn a_start_goes_through_its_phases() {
    let startup = begin("cd /tmp && echo 'Setting up' > /tmp/setup.txt");
    assert!(matches!(startup.action(), StartAction::InspectImage(i) if i == "ubuntu:latest"));

    let startup = next(startup, StartEvent::ImageMissing);
    assert!(matches!(startup.action(), StartAction::PullImage(i) if i == "ubuntu:latest"));

    let startup = next(startup, StartEvent::Pulled);
    match startup.action() {
        StartAction::CreateContainer(spec) => {
            assert_eq!(spec.image, "ubuntu:latest");
            assert_eq!(spec.cmd, vec![s("sleep"), s("infinity")]);
            assert!(spec.tty && spec.open_stdin);
            assert!(spec.attach_stdin && spec.attach_stdout && spec.attach_stderr);
        }
        other => panic!("{:?}", other),
    }

    let startup = next(startup, StartEvent::ContainerCreated(s("cid")));
    assert!(matches!(startup.action(), StartAction::StartContainer(c) if c == "cid"));

    let startup = next(startup, StartEvent::ContainerStarted);
    assert!(matches!(startup.action(), StartAction::InspectContainer(c) if c == "cid"));

    let startup = next(startup, StartEvent::Inspected(state(false)));
    assert!(matches!(startup.action(), StartAction::Sleep(n) if n == INSPECT_PAUSE));
    assert_eq!(INSPECT_PAUSE, 500_000_000);

    let startup = next(startup, StartEvent::Woke);
    assert!(matches!(startup.action(), StartAction::InspectContainer(c) if c == "cid"));

    let startup = next(startup, StartEvent::Inspected(state(true)));
    match startup.action() {
        StartAction::RunSetup(request) => {
            assert_eq!(request.container, "cid");
            assert_eq!(
                request.cmd,
                vec![s("/bin/bash"), s("-c"), s("cd /tmp && echo 'Setting up' > /tmp/setup.txt")]
            );
            assert!(request.attach_stdout && request.attach_stderr);
            assert!(!request.attach_stdin && !request.tty);
        }
        other => panic!("{:?}", other),
    }

    let startup = next(startup, setup_done(0, ""));
    match startup.action() {
        StartAction::AttachShell(request) => {
            assert_eq!(request.container, "cid");
            assert_eq!(request.cmd, vec![s("/bin/bash"), s("-i")]);
            assert!(request.attach_stdin && request.attach_stdout && request.attach_stderr);
            assert!(request.tty);
        }
        other => panic!("{:?}", other),
    }

    let startup = next(startup, StartEvent::ShellAttached);
    match startup.action() {
        StartAction::Configure { input, overall_timeout, idle_timeout, short_circuit_after } => {
            assert_eq!(input, sos::sandbox::shell::conf_cmd("sb"));
            assert!(input.contains("PS1='#PS1-sb#:$?:'"));
            assert!(input.ends_with('\n'));
            assert_eq!(overall_timeout, 2_000_000_000);
            assert_eq!(idle_timeout, CONFIGURE_IDLE_TIMEOUT);
            assert_eq!(idle_timeout, 100_000_000);
            assert_eq!(short_circuit_after, 1);
        }
        other => panic!("{:?}", other),
    }

    let launch = match startup.on_event(StartEvent::Configured(ShellOutcome::Read(Ok(s("#PS1-sb#:0:"))))) {
        StartStep::Ready(launch) => launch,
        _ => panic!("not ready"),
    };
    let mut sandbox = sandbox("cd /tmp && echo 'Setting up' > /tmp/setup.txt");
    assert!(sandbox.start(launch, (), 42).is_ok());
    assert!(matches!(sandbox.get_status(), Status::Started(c) if c == "cid"));
    assert_eq!(sandbox.start_time(), Some(42));
    // The setup commands were a one-shot command.
    assert_eq!(sandbox.get_last_standalone_exit_code(), Some(0));
}

#[test]
fn without_setup_commands_the_shell_is_attached_at_once() {
    let startup = running("");
    assert!(matches!(startup.action(), StartAction::AttachShell(_)));
}

#[test]
fn an_answer_that_does_not_fit_changes_nothing() {
    let startup = begin("");
    let startup = next(startup, StartEvent::Woke);
    let startup = next(startup, StartEvent::ContainerStarted);
    let startup = next(startup, StartEvent::Pulled);
    let startup = next(startup, StartEvent::PullFailed(s("x")));
    let startup = next(startup, StartEvent::ContainerCreated(s("cid")));
    let startup = next(startup, StartEvent::Configured(ShellOutcome::Read(Ok(s("")))));
    let startup = next(startup, StartEvent::ShellAttached);
    assert!(matches!(startup.action(), StartAction::InspectImage(_)));
    let startup = running("true");
    let startup = next(startup, StartEvent::ShellAttached);
    let startup = next(startup, StartEvent::Inspected(state(false)));
    assert!(matches!(startup.action(), StartAction::RunSetup(_)));
}

#[test]
fn a_failed_pull_fails_the_start_before_the_container() {
    let startup = next(begin(""), StartEvent::ImageMissing);
    let failure = fails(startup, StartEvent::PullFailed(s("no such image")));
    assert!(matches!(failure.error(), Error::PullImageFailed(m) if m == "no such image"));
    assert!(failure.container().is_none());
    let mut sandbox = sandbox("");
    // Nothing was left behind, so nothing could be removed.
    let error = sandbox.abort_start(failure, true);
    assert_eq!(error.to_status_code(), 400);
    assert!(matches!(sandbox.get_status(), Status::Created));
}

#[test]
fn a_container_that_cannot_be_created_fails_the_start() {
    let startup = next(begin(""), StartEvent::ImagePresent);
    let failure = fails(startup, StartEvent::CreateFailed(s("no space")));
    assert!(matches!(
        failure.error(),
        Error::StartContainerFailed { message, exit_code: None, logs } if message == "no space" && logs.is_empty()
    ));
    assert!(failure.container().is_none());
    assert_eq!(failure.error().to_status_code(), 500);
}

#[test]
fn a_container_that_cannot_be_started_is_left_behind() {
    let startup = next(begin(""), StartEvent::ImagePresent);
    let startup = next(startup, StartEvent::ContainerCreated(s("cid")));
    let failure = fails(startup, StartEvent::StartFailed(s("bad cmd")));
    assert!(matches!(
        failure.error(),
        Error::StartContainerFailed { message, .. } if message == "bad cmd"
    ));
    assert_eq!(failure.container(), Some(&s("cid")));
}

#[test]
fn a_failed_inspection_fails_the_start() {
    let startup = next(begin(""), StartEvent::ImagePresent);
    let startup = next(startup, StartEvent::ContainerCreated(s("cid")));
    let startup = next(startup, StartEvent::ContainerStarted);
    let failure = fails(startup, StartEvent::InspectFailed(s("gone")));
    assert!(matches!(
        failure.error(),
        Error::StartContainerFailed { message, exit_code: None, .. }
            if message == "Failed to inspect container: gone"
    ));
}

#[test]
fn a_container_that_never_runs_fails_the_start_with_its_logs() {
    let startup = next(begin(""), StartEvent::ImagePresent);
    let startup = next(startup, StartEvent::ContainerCreated(s("cid")));
    let mut startup = next(startup, StartEvent::ContainerStarted);
    let mut pauses = 0;
    loop {
        assert!(matches!(startup.action(), StartAction::InspectContainer(_)));
        startup = next(startup, StartEvent::Inspected(state(false)));
        match startup.action() {
            StartAction::Sleep(_) => {
                pauses += 1;
                startup = next(startup, StartEvent::Woke);
            }
            StartAction::FetchLogs(container) => {
                assert_eq!(container, "cid");
                break;
            }
            other => panic!("{:?}", other),
        }
    }
    assert_eq!(pauses, MAX_INSPECT_ATTEMPTS);
    assert_eq!(pauses, 6);
    let logs = vec![
        Frame { stream: StreamKind::StdOut, message: b"starting\n".to_vec() },
        Frame { stream: StreamKind::Console, message: b"skipped".to_vec() },
        Frame { stream: StreamKind::StdErr, message: b"killed\n".to_vec() },
    ];
    let failure = fails(startup, StartEvent::Logs(logs));
    match failure.error() {
        Error::StartContainerFailed { message, exit_code, logs } => {
            assert_eq!(message, "Container exited immediately. Status: exited, Error: oom");
            assert_eq!(*exit_code, Some(1));
            assert_eq!(logs, "starting\nkilled\n");
        }
        other => panic!("{:?}", other),
    }
    assert_eq!(failure.container(), Some(&s("cid")));
}

#[test]
fn logs_that_cannot_be_read_fail_the_start() {
    let startup = next(begin(""), StartEvent::ImagePresent);
    let startup = next(startup, StartEvent::ContainerCreated(s("cid")));
    let mut startup = next(startup, StartEvent::ContainerStarted);
    for _ in 0..6 {
        startup = next(startup, StartEvent::Inspected(state(false)));
        startup = next(startup, StartEvent::Woke);
    }
    let startup = next(startup, StartEvent::Inspected(state(false)));
    let failure = fails(startup, StartEvent::LogsFailed(s("stream error")));
    assert!(matches!(failure.error(), Error::ContainerReadFailed(m) if m == "stream error"));
}

#[test]
fn setup_commands_that_fail_fail_the_start() {
    let failure = fails(running("false"), setup_done(2, "nope"));
    assert!(matches!(failure.error(), Error::SetupCommandsFailed(output) if output == "nope"));
    assert_eq!(failure.error().to_status_code(), 400);
    assert_eq!(failure.container(), Some(&s("cid")));

    // The container was removed: the sandbox is stopped for good.
    let mut sandbox = sandbox("false");
    let error = sandbox.abort_start(failure, true);
    assert!(matches!(error, Error::SetupCommandsFailed(_)));
    assert!(matches!(sandbox.get_status(), Status::Stopped));
    assert_eq!(sandbox.get_last_standalone_exit_code(), Some(2));
    assert!(matches!(sandbox.begin_start(1), Err(Error::AlreadyStarted)));
}

#[test]
fn a_container_that_cannot_be_removed_leaves_the_sandbox_new() {
    let failure = fails(running("false"), setup_done(1, "nope"));
    let mut sandbox = sandbox("false");
    let error = sandbox.abort_start(failure, false);
    assert!(matches!(error, Error::SetupCommandsFailed(_)));
    assert!(matches!(sandbox.get_status(), Status::Created));
    assert!(sandbox.begin_start(1).is_ok());
}

#[test]
fn setup_commands_that_cannot_run_fail_the_start() {
    let failure = fails(running("true"), StartEvent::SetupDone(ExecOutcome::CreateFailed(s("denied"))));
    assert!(matches!(failure.error(), Error::CreateExecFailed(m) if m == "denied"));
    let failure = fails(running("true"), StartEvent::SetupDone(ExecOutcome::ReadFailed(s("eof"))));
    assert!(matches!(failure.error(), Error::ContainerReadFailed(m) if m == "eof"));
}

#[test]
fn a_shell_that_cannot_be_attached_fails_the_start() {
    let failure = fails(running(""), StartEvent::ShellNotAttached);
    assert!(matches!(
        failure.error(),
        Error::StartContainerFailed { message, exit_code: None, .. }
            if message == "Failed to start exec, didn't attach."
    ));
    let failure = fails(running(""), StartEvent::AttachFailed(s("no exec")));
    assert!(matches!(failure.error(), Error::PullImageFailed(m) if m == "no exec"));
}

#[test]
fn a_shell_that_cannot_be_configured_fails_the_start() {
    let configuring = || next(running(""), StartEvent::ShellAttached);
    let failure = fails(
        configuring(),
        StartEvent::Configured(ShellOutcome::WriteFailed(s("broken pipe"))),
    );
    assert!(matches!(failure.error(), Error::ContainerWriteFailed(m) if m == "broken pipe"));

    let failure = fails(
        configuring(),
        StartEvent::Configured(ShellOutcome::Read(Err(ReadError::OverallTimeout))),
    );
    assert!(matches!(failure.error(), Error::TimeoutWaitingForMarker(_)));
    assert_eq!(failure.error().to_status_code(), 504);

    let failure = fails(
        configuring(),
        StartEvent::Configured(ShellOutcome::Read(Err(ReadError::StreamClosed))),
    );
    assert!(matches!(failure.error(), Error::ContainerReadFailed(m) if m == "Stream closed unexpectedly"));
    assert_eq!(failure.error_owned().to_status_code(), 500);
}
