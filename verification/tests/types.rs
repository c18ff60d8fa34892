use sos::sandbox::types::{
    CommandExecution, CommandResult, Error, Status, BAD_REQUEST, GATEWAY_TIMEOUT,
    INTERNAL_SERVER_ERROR, NOT_FOUND,
};
use sos::sandbox::{SandboxError, SandboxStatus};

fn s(text: &str) -> String {
    text.to_string()
}

#[test]
fn every_error_has_its_message() {
    assert_eq!(Error::NotStarted.message(), "Sandbox not started");
    assert_eq!(Error::AlreadyStarted.message(), "Sandbox already started");
    assert_eq!(Error::AlreadyExited.message(), "Sandbox session already exited");
    assert_eq!(
        Error::SetupCommandsFailed(s("boom")).message(),
        "Setup commands failed: boom"
    );
    assert_eq!(Error::PullImageFailed(s("no such image")).message(), "Failed to pull image");
    assert_eq!(
        Error::StopContainerFailed(s("busy")).message(),
        "Failed to stop container: busy"
    );
    assert_eq!(
        Error::StartContainerFailed { message: s("died"), exit_code: Some(137), logs: s("oom") }
            .message(),
        "Failed to start container: died. Exit code: Some(137), Logs: oom"
    );
    assert_eq!(
        Error::StartContainerFailed { message: s("died"), exit_code: None, logs: s("") }.message(),
        "Failed to start container: died. Exit code: None, Logs: "
    );
    assert_eq!(
        Error::StartContainerFailed { message: s("m"), exit_code: Some(-1), logs: s("l") }.message(),
        "Failed to start container: m. Exit code: Some(-1), Logs: l"
    );
    assert_eq!(Error::ContainerWriteFailed(s("pipe")).message(), "Container write failed");
    assert_eq!(
        Error::ContainerReadFailed(s("eof")).message(),
        "Container read failed: eof"
    );
    assert_eq!(
        Error::ExecFailed(s("out"), 2).message(),
        "Exec failed: out (exit code: 2)"
    );
    assert_eq!(
        Error::CreateExecFailed(s("denied")).message(),
        "Failed to create exec: denied"
    );
    assert_eq!(
        Error::TimeoutWaitingForMarker(s("late")).message(),
        "Timeout waiting for marker: late"
    );
}

#[test]
fn every_error_has_its_status_code() {
    assert_eq!(Error::NotStarted.to_status_code(), 400);
    assert_eq!(Error::AlreadyStarted.to_status_code(), 400);
    assert_eq!(Error::AlreadyExited.to_status_code(), 400);
    assert_eq!(Error::SetupCommandsFailed(s("")).to_status_code(), 400);
    assert_eq!(Error::PullImageFailed(s("")).to_status_code(), 400);
    assert_eq!(Error::StopContainerFailed(s("")).to_status_code(), 400);
    assert_eq!(
        Error::StartContainerFailed { message: s(""), exit_code: None, logs: s("") }
            .to_status_code(),
        500
    );
    assert_eq!(Error::ContainerWriteFailed(s("")).to_status_code(), 500);
    assert_eq!(Error::ContainerReadFailed(s("")).to_status_code(), 500);
    assert_eq!(Error::ExecFailed(s(""), 1).to_status_code(), 500);
    assert_eq!(Error::CreateExecFailed(s("")).to_status_code(), 500);
    assert_eq!(Error::TimeoutWaitingForMarker(s("")).to_status_code(), 504);
    assert_eq!(
        (BAD_REQUEST, NOT_FOUND, INTERNAL_SERVER_ERROR, GATEWAY_TIMEOUT),
        (400, 404, 500, 504)
    );
}

#[test]
fn every_status_has_its_label() {
    assert_eq!(Status::Created.label(), "created");
    assert_eq!(Status::Started(s("cid")).label(), "started");
    assert_eq!(Status::Exited(s("cid")).label(), "exited");
    assert_eq!(Status::Stopped.label(), "stopped");
}

#[test]
fn the_sandbox_names_are_the_same_types() {
    let error: SandboxError = Error::NotStarted;
    assert_eq!(error.message(), "Sandbox not started");
    let status: SandboxStatus = Status::Created;
    assert_eq!(status.label(), "created");
}

#[test]
fn clones_keep_every_field() {
    let result = CommandResult { output: s("out"), exit_code: 3, exited: true };
    let copy = result.clone();
    assert_eq!((copy.output.as_str(), copy.exit_code, copy.exited), ("out", 3, true));
    let entry = CommandExecution { command: s("ls"), timestamp: 9, result: Some(result) };
    let copy = entry.clone();
    assert_eq!(copy.command, "ls");
    assert_eq!(copy.timestamp, 9);
    assert_eq!(copy.result.unwrap().output, "out");
    let entry = CommandExecution { command: s("ls"), timestamp: 9, result: None };
    assert!(entry.clone().result.is_none());
    match Status::Exited(s("c1")).clone() {
        Status::Exited(container) => assert_eq!(container, "c1"),
        other => panic!("{:?}", other),
    }
}
