use lazy::ipc::{DaemonMessage, PortRequest, ProcessKind, RunnerMessage};
use lazy::runner::{
    daemon_connect_step, daemon_message_text, http_registration, port_wait_step, public_url, registration_outcome,
    worker_registration, Phase, RetryStep, Runner, RunnerAction, RunnerEvent, RETRY_INTERVAL_MS,
    WORKER_SETTLE_MS,
};

fn strings(items: &[&str]) -> Vec<String> {
    items.iter().map(|s| s.to_string()).collect()
}

fn http_runner(command: &[&str]) -> Runner {
    Runner::new(
        "web".to_string(),
        ProcessKind::Http,
        strings(command),
        "http://web.localhost:8080".to_string(),
        None,
        None,
    )
}

fn worker_runner(command: &[&str]) -> Runner {
    Runner::new("jobs".to_string(), ProcessKind::Worker, strings(command), String::new(), None, None)
}

fn sent(action: &RunnerAction) -> Option<&RunnerMessage> {
    match action {
        RunnerAction::Send(m) => Some(m),
        _ => None,
    }
}

#[test]
fn registrations_carry_the_port_request() {
    let fixed = http_registration("web".to_string(), Some(3000), 4000, 4999);
    assert_eq!(fixed.port_request, Some(PortRequest::Fixed { port: 3000 }));
    let range = http_registration("web".to_string(), None, 4000, 4999);
    assert_eq!(range.port_request, Some(PortRequest::Range { start: 4000, end: 4999 }));
    assert_eq!(range.kind, ProcessKind::Http);
    let worker = worker_registration("jobs".to_string());
    assert_eq!(worker.port_request, None);
    assert_eq!(worker.kind, ProcessKind::Worker);
}

#[test]
fn connects_when_daemon_is_already_available() {
    // A successful connection needs no decision; a failed one with time left retries.
    assert!(matches!(
        daemon_connect_step("/s", "refused", Some(1_000), 0),
        RetryStep::Retry { wait_ms: 100 }
    ));
}

#[test]
fn waits_for_delayed_daemon_availability() {
    assert!(matches!(
        daemon_connect_step("/s", "refused", Some(1_040), 1_000),
        RetryStep::Retry { wait_ms: 40 }
    ));
    assert_eq!(RETRY_INTERVAL_MS, 100);
}

#[test]
fn reports_timeout_when_daemon_stays_unavailable() {
    match daemon_connect_step("/tmp/lazy.sock", "No such file or directory", Some(25), 25) {
        RetryStep::Fail { message } => {
            assert!(message.contains("timed out waiting for lazy daemon"));
            assert!(message.contains("/tmp/lazy.sock"));
            assert_eq!(message, "timed out waiting for lazy daemon at /tmp/lazy.sock: No such file or directory");
        }
        other => panic!("expected a failure, got {other:?}"),
    }
}

#[test]
fn omitted_timeout_preserves_immediate_connection_error() {
    match daemon_connect_step("/tmp/lazy.sock", "refused", None, 0) {
        RetryStep::Fail { message } => {
            assert!(message.contains("could not connect to lazy daemon"));
            assert!(!message.contains("timed out"));
        }
        other => panic!("expected a failure, got {other:?}"),
    }
}

#[test]
fn port_wait_succeeds_retries_then_times_out() {
    assert!(port_wait_step(4000, true, 10, 50).is_none());
    assert!(matches!(port_wait_step(4000, false, 10, 5), Some(RetryStep::Retry { wait_ms: 100 })));
    match port_wait_step(4000, false, 10, 10) {
        Some(RetryStep::Fail { message }) => assert_eq!(message, "timed out waiting for loopback port 4000"),
        other => panic!("expected a failure, got {other:?}"),
    }
}

#[test]
fn registration_answers() {
    assert_eq!(
        registration_outcome(Some(DaemonMessage::Registered { url: Some("http://a".to_string()) })),
        Ok(Some("http://a".to_string()))
    );
    assert_eq!(
        registration_outcome(Some(DaemonMessage::Error { message: "taken".to_string() })),
        Err("taken".to_string())
    );
    assert_eq!(
        registration_outcome(None),
        Err("daemon disconnected during registration".to_string())
    );
    assert_eq!(
        registration_outcome(Some(DaemonMessage::Start { port: Some(4000) })),
        Err("unexpected daemon response: Start { port: Some(4000) }".to_string())
    );
    assert_eq!(
        registration_outcome(Some(DaemonMessage::Stop)),
        Err("unexpected daemon response: Stop".to_string())
    );
}

#[test]
fn daemon_messages_print_like_debug() {
    for message in [
        DaemonMessage::Registered { url: Some("http://x\"y".to_string()) },
        DaemonMessage::Registered { url: None },
        DaemonMessage::Start { port: Some(1) },
        DaemonMessage::Start { port: None },
        DaemonMessage::Stop,
        DaemonMessage::Error { message: "a\nb".to_string() },
    ] {
        assert_eq!(daemon_message_text(&message), format!("{message:?}"));
    }
}

#[test]
fn public_url_falls_back_to_the_name() {
    assert_eq!(public_url(None, "web"), "http://web");
    assert_eq!(public_url(Some("https://x".to_string()), "web"), "https://x");
}

#[test]
fn http_start_spawns_the_prepared_command_and_waits_for_the_port() {
    let mut runner = http_runner(&["vite"]);
    let actions = runner.step(RunnerEvent::Message(DaemonMessage::Start { port: Some(4100) }));
    assert_eq!(actions.len(), 2);
    assert!(matches!(&actions[0], RunnerAction::Print(line) if line == "lazy: starting web"));
    match &actions[1] {
        RunnerAction::Spawn(command) => {
            assert_eq!(command.argv, strings(&["vite", "--port", "4100", "--strictPort", "--host", "127.0.0.1"]));
            assert_eq!(command.env[0], ("PORT".to_string(), "4100".to_string()));
        }
        other => panic!("expected a spawn, got {other:?}"),
    }
    assert_eq!(runner.phase, Phase::Starting { port: Some(4100) });

    let actions = runner.step(RunnerEvent::Spawned);
    assert!(matches!(actions.as_slice(), [RunnerAction::WaitForPort { port: 4100 }]));
    let actions = runner.step(RunnerEvent::PortReady);
    assert!(matches!(sent(&actions[0]), Some(RunnerMessage::Ready { name }) if name == "web"));
    assert_eq!(runner.phase, Phase::Running);

    let again = runner.step(RunnerEvent::Message(DaemonMessage::Start { port: Some(4100) }));
    assert_eq!(again.len(), 1);
    assert!(matches!(sent(&again[0]), Some(RunnerMessage::Ready { .. })));
}

#[test]
fn worker_start_is_ready_once_settled() {
    let mut runner = worker_runner(&["sleep", "100"]);
    let actions = runner.step(RunnerEvent::Message(DaemonMessage::Start { port: None }));
    match &actions[1] {
        RunnerAction::Spawn(command) => {
            assert_eq!(command.argv, strings(&["sleep", "100"]));
            assert!(command.env.is_empty());
        }
        other => panic!("expected a spawn, got {other:?}"),
    }
    let actions = runner.step(RunnerEvent::Spawned);
    assert!(matches!(actions.as_slice(), [RunnerAction::WaitToSettle { ms: WORKER_SETTLE_MS }]));
    assert_eq!(runner.phase, Phase::Starting { port: None });
    let actions = runner.step(RunnerEvent::Settled);
    assert!(matches!(sent(&actions[0]), Some(RunnerMessage::Ready { name }) if name == "jobs"));
    assert_eq!(runner.phase, Phase::Running);
}

#[test]
fn worker_exit_is_reported_instead_of_ready() {
    let mut runner = worker_runner(&["true"]);
    runner.step(RunnerEvent::Message(DaemonMessage::Start { port: None }));
    let spawned = runner.step(RunnerEvent::Spawned);
    assert!(spawned.iter().all(|action| sent(action).is_none()));
    let actions = runner.step(RunnerEvent::Exited { code: 0 });
    assert_eq!(actions.len(), 1);
    assert!(matches!(
        sent(&actions[0]),
        Some(RunnerMessage::Failed { error, .. }) if error == "process exited with code 0"
    ));
    assert_eq!(runner.phase, Phase::Idle);
    assert!(runner.step(RunnerEvent::Settled).is_empty());
}

#[test]
fn http_exit_before_readiness_fails_with_exit_context() {
    let mut runner = http_runner(&["server"]);
    runner.step(RunnerEvent::Message(DaemonMessage::Start { port: Some(4101) }));
    runner.step(RunnerEvent::Spawned);
    let actions = runner.step(RunnerEvent::Exited { code: 0 });
    assert!(matches!(
        sent(&actions[0]),
        Some(RunnerMessage::Failed { error, .. }) if error == "process exited with code 0"
    ));
    assert_eq!(runner.phase, Phase::Idle);
    assert!(runner.step(RunnerEvent::PortReady).is_empty());
}

#[test]
fn exit_after_readiness_is_reported_and_a_new_start_relaunches() {
    let mut runner = worker_runner(&["job"]);
    runner.step(RunnerEvent::Message(DaemonMessage::Start { port: None }));
    runner.step(RunnerEvent::Spawned);
    let ready = runner.step(RunnerEvent::Settled);
    assert!(matches!(sent(&ready[0]), Some(RunnerMessage::Ready { .. })));
    let actions = runner.step(RunnerEvent::Exited { code: 3 });
    assert!(matches!(
        sent(&actions[0]),
        Some(RunnerMessage::Failed { error, .. }) if error == "process exited with code 3"
    ));
    let actions = runner.step(RunnerEvent::Message(DaemonMessage::Start { port: None }));
    assert!(matches!(actions[1], RunnerAction::Spawn(_)));
}

#[test]
fn stop_kills_and_reports_stopped() {
    let mut runner = worker_runner(&["job"]);
    runner.step(RunnerEvent::Message(DaemonMessage::Start { port: None }));
    runner.step(RunnerEvent::Spawned);
    let actions = runner.step(RunnerEvent::Message(DaemonMessage::Stop));
    assert_eq!(actions.len(), 4);
    assert!(matches!(&actions[0], RunnerAction::Print(line) if line == "lazy: stopping jobs"));
    assert!(matches!(actions[1], RunnerAction::Kill));
    assert!(matches!(sent(&actions[2]), Some(RunnerMessage::Stopped { name }) if name == "jobs"));
    assert!(matches!(&actions[3], RunnerAction::Print(line) if line == "lazy: waiting for activation"));
    assert_eq!(runner.phase, Phase::Idle);
    assert!(runner.step(RunnerEvent::Exited { code: 137 }).is_empty());
}

#[test]
fn spawn_failures_timeouts_and_empty_commands_fail_the_start() {
    let mut runner = http_runner(&["server"]);
    runner.step(RunnerEvent::Message(DaemonMessage::Start { port: Some(4102) }));
    let actions = runner.step(RunnerEvent::SpawnFailed { error: "no such file".to_string() });
    assert!(matches!(sent(&actions[0]), Some(RunnerMessage::Failed { error, .. }) if error == "no such file"));

    runner.step(RunnerEvent::Message(DaemonMessage::Start { port: Some(4102) }));
    runner.step(RunnerEvent::Spawned);
    let actions = runner.step(RunnerEvent::PortTimedOut { error: "timed out".to_string() });
    assert!(matches!(actions[0], RunnerAction::Kill));
    assert!(matches!(sent(&actions[1]), Some(RunnerMessage::Failed { error, .. }) if error == "timed out"));
    assert_eq!(runner.phase, Phase::Idle);

    let mut empty = worker_runner(&[]);
    let actions = empty.step(RunnerEvent::Message(DaemonMessage::Start { port: None }));
    assert!(matches!(sent(&actions[1]), Some(RunnerMessage::Failed { error, .. }) if error == "empty command"));
    assert_eq!(empty.phase, Phase::Idle);

    let mut portless = http_runner(&["server"]);
    let actions = portless.step(RunnerEvent::Message(DaemonMessage::Start { port: None }));
    assert!(matches!(
        sent(&actions[0]),
        Some(RunnerMessage::Failed { error, .. }) if error == "no upstream port was assigned"
    ));
}

#[test]
fn daemon_errors_are_printed_and_disconnection_exits() {
    let mut runner = worker_runner(&["job"]);
    let actions = runner.step(RunnerEvent::Message(DaemonMessage::Error { message: "bad".to_string() }));
    assert!(matches!(&actions[0], RunnerAction::PrintError(line) if line == "lazy: daemon error: bad"));
    assert!(runner.step(RunnerEvent::Message(DaemonMessage::Registered { url: None })).is_empty());
    runner.step(RunnerEvent::Message(DaemonMessage::Start { port: None }));
    let actions = runner.step(RunnerEvent::Disconnected);
    assert!(matches!(actions.as_slice(), [RunnerAction::Kill, RunnerAction::Exit]));
}
