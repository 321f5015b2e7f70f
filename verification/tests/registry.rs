use lazy::daemon::registry::{
    immediate_start_result, not_registered, start_reply, stop_reply, wait_result, LaunchError, PortError,
    RegisterError, Registry, ServiceState, StartPlan, WaitOutcome,
};
use lazy::daemon::requests::{stop_response, StatusAction};
use lazy::daemon::routing::HostRouting;
use lazy::daemon::status::{format_status, sanitize_status_detail, StatusRow};
use lazy::ipc::{PortRequest, ProcessKind, Register, RunnerMessage};

fn suffix_registry() -> Registry {
    Registry::new(HostRouting::Suffix(".localhost".to_string()), 8080, None, false)
}

fn xip_registry() -> Registry {
    Registry::new(HostRouting::xip("xip.example.com", [192, 0, 2, 10]).unwrap(), 8080, None, false)
}

fn http(name: &str, request: PortRequest) -> Register {
    Register { name: name.to_string(), kind: ProcessKind::Http, port_request: Some(request) }
}

fn worker(name: &str) -> Register {
    Register { name: name.to_string(), kind: ProcessKind::Worker, port_request: None }
}

/// Starts `name` for `waiter` the way the daemon does, treating every port
/// as bindable; returns the port it was launched on.
fn launch(registry: &mut Registry, name: &str, waiter: u64) -> Option<u16> {
    match registry.begin_start(name, waiter) {
        StartPlan::Launch { request, .. } => {
            let port = request.map(|r| registry.port_candidate(r, 0).unwrap());
            registry.launch(name, port, waiter).unwrap();
            port
        }
        other => panic!("expected a launch, got {other:?}"),
    }
}

fn route(registry: &Registry, host: &str) -> Option<String> {
    registry.route_for_request(host, &mut Vec::new()).map(|r| r.name)
}

#[test]
fn xip_routing_accepts_an_ip_other_than_the_generated_url_ip() {
    let mut registry = xip_registry();
    registry.register(http("api", PortRequest::Fixed { port: 4000 }), 1).unwrap();
    assert_eq!(route(&registry, "api-127-0-0-1.xip.example.com").as_deref(), Some("api"));
}

#[test]
fn xip_routing_matches_a_registered_service_after_a_prefix() {
    let mut registry = xip_registry();
    registry.register(http("api", PortRequest::Fixed { port: 4000 }), 1).unwrap();
    assert_eq!(route(&registry, "acme-api-192-0-2-10.xip.example.com").as_deref(), Some("api"));
}

#[test]
fn xip_routing_prefers_the_longest_registered_suffix() {
    let mut registry = xip_registry();
    registry.register(http("api", PortRequest::Fixed { port: 4000 }), 1).unwrap();
    registry.register(http("internal-api", PortRequest::Fixed { port: 4001 }), 2).unwrap();
    assert_eq!(
        route(&registry, "acme-internal-api-192-0-2-10.xip.example.com").as_deref(),
        Some("internal-api")
    );
}

#[test]
fn xip_routing_prefers_an_exact_registered_name() {
    let mut registry = xip_registry();
    registry.register(http("api", PortRequest::Fixed { port: 4000 }), 1).unwrap();
    registry.register(http("acme-api", PortRequest::Fixed { port: 4001 }), 2).unwrap();
    assert_eq!(route(&registry, "acme-api-192-0-2-10.xip.example.com").as_deref(), Some("acme-api"));
}

#[test]
fn xip_routing_requires_a_hyphen_before_the_registered_service() {
    let mut registry = xip_registry();
    registry.register(http("api", PortRequest::Fixed { port: 4000 }), 1).unwrap();
    assert_eq!(route(&registry, "myapi-192-0-2-10.xip.example.com").as_deref(), Some("myapi"));
}

#[test]
fn wildcard_prefix_matching_is_limited_to_xip_routing() {
    let mut registry = suffix_registry();
    registry.register(http("api", PortRequest::Fixed { port: 4000 }), 1).unwrap();
    assert_eq!(route(&registry, "acme-api.localhost").as_deref(), Some("acme-api"));
}

#[test]
fn path_routing_rewrites_the_target_and_falls_back_to_the_referer() {
    let mut registry =
        Registry::new(HostRouting::Suffix(".localhost".to_string()), 8080, Some("node.example".to_string()), false);
    registry.register(http("vite", PortRequest::Fixed { port: 4000 }), 1).unwrap();

    let mut buffer = b"GET /vite/app.js HTTP/1.1\r\nHost: node.example\r\n\r\n".to_vec();
    let found = registry.route_for_request("NODE.example", &mut buffer).map(|r| r.name);
    assert_eq!(found.as_deref(), Some("vite"));
    assert_eq!(buffer, b"GET /app.js HTTP/1.1\r\nHost: node.example\r\n\r\n".to_vec());

    let original = b"GET /assets/x.js HTTP/1.1\r\nReferer: http://node.example/vite/\r\n\r\n".to_vec();
    let mut buffer = original.clone();
    let found = registry.route_for_request("node.example", &mut buffer).map(|r| r.name);
    assert_eq!(found.as_deref(), Some("vite"));
    assert_eq!(buffer, original);

    let mut buffer = b"GET /other HTTP/1.1\r\n\r\n".to_vec();
    assert!(registry.route_for_request("node.example", &mut buffer).is_none());
    assert_eq!(buffer, b"GET /other HTTP/1.1\r\n\r\n".to_vec());
    assert_eq!(
        registry.url_for_service("vite").unwrap(),
        "http://node.example:8080/vite/"
    );
}

#[test]
fn allocates_distinct_ports_when_services_are_started() {
    let mut registry = suffix_registry();
    registry.register(http("one", PortRequest::Range { start: 4100, end: 4101 }), 1).unwrap();
    registry.register(http("two", PortRequest::Range { start: 4100, end: 4101 }), 2).unwrap();
    let first = launch(&mut registry, "one", 10).unwrap();
    let second = launch(&mut registry, "two", 11).unwrap();
    assert_eq!((first, second), (4100, 4101));
}

#[test]
fn releases_automatic_port_after_service_stops() {
    let mut registry = suffix_registry();
    registry.register(http("one", PortRequest::Range { start: 4200, end: 4200 }), 1).unwrap();
    registry.register(http("two", PortRequest::Range { start: 4200, end: 4200 }), 2).unwrap();
    assert_eq!(launch(&mut registry, "one", 10), Some(4200));
    assert_eq!(
        registry.port_candidate(PortRequest::Range { start: 4200, end: 4200 }, 0),
        Err(PortError::NoFreePort { start: 4200, end: 4200 })
    );
    let notice = registry.apply_runner_message(RunnerMessage::Stopped { name: "one".to_string() });
    assert_eq!(notice.waiters, vec![10]);
    assert_eq!(notice.result, Err("stopped".to_string()));
    assert_eq!(launch(&mut registry, "two", 11), Some(4200));
}

#[test]
fn explicit_port_is_checked_when_service_starts() {
    let mut registry = suffix_registry();
    registry.register(http("one", PortRequest::Fixed { port: 4300 }), 1).unwrap();
    registry.register(http("two", PortRequest::Fixed { port: 4300 }), 2).unwrap();
    assert_eq!(launch(&mut registry, "one", 10), Some(4300));
    assert!(matches!(registry.begin_start("two", 11), StartPlan::Launch { .. }));
    let err = registry.port_candidate(PortRequest::Fixed { port: 4300 }, 0).unwrap_err();
    assert_eq!(err.message(), "upstream port 4300 is unavailable");
    assert_eq!(registry.launch("two", Some(4300), 11), Err(LaunchError::BadPort));
}

#[test]
fn disconnect_removes_service_and_releases_waiters() {
    let mut registry = suffix_registry();
    registry.register(http("one", PortRequest::Fixed { port: 4400 }), 7).unwrap();
    assert_eq!(launch(&mut registry, "one", 10), Some(4400));
    assert_eq!(registry.begin_start("one", 11), StartPlan::Waiting);
    assert_eq!(registry.unregister("one", 8), Vec::<u64>::new());
    assert_eq!(registry.unregister("one", 7), vec![10, 11]);
    assert_eq!(registry.status(), "no services registered\n");
}

#[test]
fn ready_service_answers_every_waiter() {
    let mut registry = suffix_registry();
    registry.register(worker("jobs"), 1).unwrap();
    assert_eq!(launch(&mut registry, "jobs", 5), None);
    assert_eq!(registry.begin_start("jobs", 6), StartPlan::Waiting);
    let notice = registry.apply_runner_message(RunnerMessage::Ready { name: "jobs".to_string() });
    assert_eq!(notice.waiters, vec![5, 6]);
    assert_eq!(notice.result, Ok(()));
    assert_eq!(registry.begin_start("jobs", 7), StartPlan::AlreadyReady);
    assert_eq!(registry.begin_start("missing", 8), StartPlan::NotRegistered);
}

#[test]
fn failed_service_keeps_its_error_and_frees_its_port() {
    let mut registry = suffix_registry();
    registry.register(http("web", PortRequest::Fixed { port: 4500 }), 1).unwrap();
    launch(&mut registry, "web", 3);
    let notice = registry.apply_runner_message(RunnerMessage::Failed {
        name: "web".to_string(),
        error: "process exited with code 0".to_string(),
    });
    assert_eq!(notice.result, Err("process exited with code 0".to_string()));
    let service = registry.service(0);
    assert_eq!(service.state, ServiceState::Failed);
    assert_eq!(service.active_port, None);
    assert_eq!(
        registry.status(),
        "NAME\tKIND\tSTATE\tURL\tUPSTREAM\tDETAIL\nweb\thttp\tfailed\thttp://web.localhost:8080\t-\tprocess exited with code 0\n"
    );
    assert_eq!(registry.upstream_port("web"), Err("service \"web\" has no active upstream port".to_string()));
}

#[test]
fn registrations_are_validated() {
    let mut registry = suffix_registry();
    let zero = registry.register(http("a", PortRequest::Fixed { port: 0 }), 1).unwrap_err();
    assert_eq!(zero.message(), "upstream port must be greater than zero");
    let range = registry.register(http("a", PortRequest::Range { start: 5, end: 4 }), 1).unwrap_err();
    assert_eq!(range.message(), "invalid port range 5-4");
    let missing = registry
        .register(Register { name: "a".to_string(), kind: ProcessKind::Http, port_request: None }, 1)
        .unwrap_err();
    assert_eq!(missing.message(), "HTTP service registration requires a port request");
    let worker_port = registry
        .register(
            Register {
                name: "a".to_string(),
                kind: ProcessKind::Worker,
                port_request: Some(PortRequest::Fixed { port: 1 }),
            },
            1,
        )
        .unwrap_err();
    assert_eq!(worker_port.message(), "worker registration must not request a port");
    registry.register(worker("a"), 1).unwrap();
    let twice = registry.register(worker("a"), 2).unwrap_err();
    assert!(matches!(twice, RegisterError::AlreadyRegistered { .. }));
    assert_eq!(twice.message(), "service \"a\" is already registered");
    assert_eq!(registry.len(), 1);
}

#[test]
fn port_candidates_skip_ports_that_cannot_be_bound() {
    let registry = suffix_registry();
    let request = PortRequest::Range { start: 4600, end: 4602 };
    assert_eq!(registry.port_candidate(request, 0), Ok(4600));
    assert_eq!(registry.port_candidate(request, 4601), Ok(4601));
    assert_eq!(
        registry.port_candidate(request, 4603),
        Err(PortError::NoFreePort { start: 4600, end: 4602 })
    );
    assert_eq!(
        PortError::NoFreePort { start: 4600, end: 4602 }.message(),
        "no free port found in range 4600-4602"
    );
    assert_eq!(
        registry.port_candidate(PortRequest::Fixed { port: 4600 }, 4601),
        Err(PortError::Unavailable { port: 4600 })
    );
}

#[test]
fn launching_needs_a_dormant_or_failed_service() {
    let mut registry = suffix_registry();
    assert_eq!(registry.launch("none", None, 1), Err(LaunchError::NotRegistered));
    registry.register(worker("jobs"), 1).unwrap();
    assert_eq!(registry.launch("jobs", Some(4000), 1), Err(LaunchError::BadPort));
    registry.launch("jobs", None, 1).unwrap();
    assert_eq!(registry.launch("jobs", None, 2), Err(LaunchError::NotStartable));
    assert_eq!(registry.control_of("jobs"), Some(1));
    assert_eq!(registry.control_of("none"), None);
}

#[test]
fn client_replies() {
    assert_eq!(start_reply("web", Ok(())), "web: ready\n");
    assert_eq!(start_reply("web", Err("service not registered")), "web: service not registered\n");
    assert_eq!(stop_reply("web", Ok(())), "web: stopping\n");
    assert_eq!(stop_reply("web", Err("boom")), "web: boom\n");
}

#[test]
fn status_is_empty_when_no_services() {
    assert_eq!(suffix_registry().status(), "no services registered\n");
}

#[test]
fn status_json_is_empty_array_when_no_services() {
    assert_eq!(suffix_registry().status_json(), "[]");
}

#[test]
fn collect_rows_and_status_agree() {
    let mut registry = suffix_registry();
    registry.register(http("vite", PortRequest::Fixed { port: 4700 }), 1).unwrap();

    let rows = registry.collect_rows();
    assert_eq!(rows.len(), 1);
    assert_eq!(rows[0].name, "vite");
    assert_eq!(rows[0].kind, "http");
    assert_eq!(rows[0].state, "dormant");
    assert_eq!(rows[0].url, "http://vite.localhost:8080");
    assert_eq!(rows[0].upstream, "-");
    assert_eq!(rows[0].detail, "-");

    let text = registry.status();
    let expected = "NAME\tKIND\tSTATE\tURL\tUPSTREAM\tDETAIL\nvite\thttp\tdormant\thttp://vite.localhost:8080\t-\t-\n";
    assert_eq!(text, expected);
}

#[test]
fn collect_rows_shows_ready_state_and_upstream() {
    let mut registry = suffix_registry();
    registry.register(http("web", PortRequest::Fixed { port: 4701 }), 1).unwrap();
    launch(&mut registry, "web", 2);
    registry.apply_runner_message(RunnerMessage::Ready { name: "web".to_string() });

    let rows = registry.collect_rows();
    assert_eq!(rows[0].state, "ready");
    assert_eq!(rows[0].upstream, "127.0.0.1:4701");
    assert_eq!(registry.upstream_port("web"), Ok(4701));
}

#[test]
fn status_json_contains_service_data() {
    let mut registry = suffix_registry();
    registry.register(http("vite", PortRequest::Fixed { port: 4702 }), 1).unwrap();

    let json = registry.status_json();
    assert!(json.contains("\"name\":\"vite\""));
    assert!(json.contains("\"kind\":\"http\""));
    assert!(json.contains("\"state\":\"dormant\""));
    assert!(json.contains("\"url\":\"http://vite.localhost:8080\""));
    assert_eq!(
        json,
        "[{\"name\":\"vite\",\"kind\":\"http\",\"state\":\"dormant\",\"url\":\"http://vite.localhost:8080\",\"upstream\":\"-\",\"detail\":\"-\"}]"
    );
}

#[test]
fn worker_rows_have_no_url_and_details_are_one_line() {
    let mut registry = suffix_registry();
    registry.register(worker("jobs"), 1).unwrap();
    launch(&mut registry, "jobs", 2);
    registry.apply_runner_message(RunnerMessage::Failed { name: "jobs".to_string(), error: "a\tb\r\nc".to_string() });
    let rows = registry.collect_rows();
    assert_eq!(rows[0].url, "-");
    assert_eq!(rows[0].detail, "a b  c");
    assert_eq!(sanitize_status_detail("x\ny"), "x y");
}

#[test]
fn status_table_formatting() {
    let row = StatusRow {
        name: "a".to_string(),
        kind: "worker".to_string(),
        state: "ready".to_string(),
        url: "-".to_string(),
        upstream: "-".to_string(),
        detail: "-".to_string(),
    };
    assert_eq!(format_status(&vec![row]), "NAME\tKIND\tSTATE\tURL\tUPSTREAM\tDETAIL\na\tworker\tready\t-\t-\t-\n");
    assert_eq!(format_status(&Vec::new()), "no services registered\n");
}

fn respond(action: StatusAction) -> String {
    match action {
        StatusAction::Respond(text) => text,
        other => panic!("expected a response, got {other:?}"),
    }
}

#[test]
fn try_serve_status_serves_html_on_bare_suffix_root() {
    let registry = suffix_registry();
    let response = respond(registry.status_action("localhost", b"GET / HTTP/1.1\r\nHost: localhost\r\n\r\n"));
    assert!(response.contains("HTTP/1.1 200 OK"));
    assert!(!response.contains("&quot;"));
    assert!(response.contains("fetch(\"/api/status\")"));
    assert!(response.contains("setTimeout(poll, 2000)"));
    assert!(!response.contains("http-equiv=\"refresh\""));
    assert!(!response.contains("innerHTML"));
    assert!(response.contains("fetch(\"/api/stop\""));
    assert!(response.contains("\"X-Lazy-Service\": service.name"));
    assert!(response.contains("document.createElement(\"button\")"));
    assert!(response.contains("button.className = \"stop-link\""));
    assert!(response.contains("button.disabled = !canStop || stopping.has(service.name)"));
    assert!(response.contains("button.textContent = \"Stop\""));
    assert!(!response.contains("Stopping…"));
}

#[test]
fn try_serve_status_serves_json_on_bare_suffix_api() {
    let registry = suffix_registry();
    let response =
        respond(registry.status_action("localhost", b"GET /api/status HTTP/1.1\r\nHost: localhost\r\n\r\n"));
    assert!(response.contains("HTTP/1.1 200 OK"));
    assert!(response.contains("application/json"));
}

#[test]
fn try_serve_status_serves_html_on_bare_xip_root() {
    let routing = HostRouting::xip("xip.example.com", [127, 0, 0, 1]).unwrap();
    let registry = Registry::new(routing, 443, None, true);
    let response = respond(registry.status_action(
        "127-0-0-1.xip.example.com",
        b"GET / HTTP/1.1\r\nHost: 127-0-0-1.xip.example.com\r\n\r\n",
    ));
    assert!(response.contains("HTTP/1.1 200 OK"));
}

#[test]
fn try_serve_status_serves_json_on_bare_xip_api() {
    let routing = HostRouting::xip("xip.example.com", [127, 0, 0, 1]).unwrap();
    let registry = Registry::new(routing, 443, None, true);
    let response = respond(registry.status_action(
        "127-0-0-1.xip.example.com",
        b"GET /api/status HTTP/1.1\r\nHost: 127-0-0-1.xip.example.com\r\n\r\n",
    ));
    assert!(response.contains("HTTP/1.1 200 OK"));
    assert!(response.contains("application/json"));
}

#[test]
fn try_serve_status_rejects_post_method() {
    let registry = suffix_registry();
    assert!(matches!(
        registry.status_action("localhost", b"POST / HTTP/1.1\r\nHost: localhost\r\n\r\n"),
        StatusAction::NotStatus
    ));
    assert!(matches!(
        registry.status_action("localhost", b"POST /api/status HTTP/1.1\r\nHost: localhost\r\n\r\n"),
        StatusAction::NotStatus
    ));
}

#[test]
fn try_serve_status_dispatches_stop_to_registered_service() {
    let mut registry = suffix_registry();
    registry.register(http("vite", PortRequest::Fixed { port: 4100 }), 1).unwrap();
    let action = registry.status_action(
        "localhost",
        b"POST /api/stop HTTP/1.1\r\nHost: localhost\r\nContent-Type: application/json\r\nX-Lazy-Service: vite\r\nContent-Length: 2\r\n\r\n{}",
    );
    match action {
        StatusAction::Stop(name) => assert_eq!(name, "vite"),
        other => panic!("expected a stop, got {other:?}"),
    }
    let response = stop_response(Ok(()));
    assert!(response.contains("HTTP/1.1 202 Accepted"));
    assert!(response.ends_with(r#"{"ok":true}"#));
    let failed = stop_response(Err("channel \"closed\""));
    assert!(failed.starts_with("HTTP/1.1 500 Internal Server Error"));
    assert!(failed.ends_with(r#"{"error":"channel \"closed\""}"#));
}

#[test]
fn try_serve_status_validates_stop_requests() {
    let registry = suffix_registry();
    for (request, expected_status) in [
        (
            b"POST /api/stop HTTP/1.1\r\nHost: localhost\r\nX-Lazy-Service: vite\r\n\r\n".as_slice(),
            "415 Unsupported Media Type",
        ),
        (
            b"POST /api/stop HTTP/1.1\r\nHost: localhost\r\nContent-Type: application/json\r\n\r\n".as_slice(),
            "400 Bad Request",
        ),
        (
            b"POST /api/stop HTTP/1.1\r\nHost: localhost\r\nContent-Type: application/json; charset=utf-8\r\nX-Lazy-Service: missing\r\n\r\n"
                .as_slice(),
            "404 Not Found",
        ),
    ] {
        let response = respond(registry.status_action("localhost", request));
        assert!(response.contains(expected_status), "expected {expected_status}, got {response}");
    }
}

#[test]
fn try_serve_status_rejects_unrelated_path_on_status_host() {
    let registry = suffix_registry();
    assert!(matches!(
        registry.status_action("localhost", b"GET /some-other-path HTTP/1.1\r\nHost: localhost\r\n\r\n"),
        StatusAction::NotStatus
    ));
}

#[test]
fn try_serve_status_does_not_match_service_host() {
    let registry = suffix_registry();
    assert!(matches!(
        registry.status_action("vite.localhost", b"GET / HTTP/1.1\r\nHost: vite.localhost\r\n\r\n"),
        StatusAction::NotStatus
    ));
}

#[test]
fn start_requests_are_answered() {
    assert_eq!(immediate_start_result(StartPlan::NotRegistered), Some(Err("service not registered".to_string())));
    assert_eq!(immediate_start_result(StartPlan::AlreadyReady), Some(Ok(())));
    assert_eq!(immediate_start_result(StartPlan::Waiting), None);
    assert_eq!(wait_result(WaitOutcome::Answered(Err("boom".to_string()))), Err("boom".to_string()));
    assert_eq!(wait_result(WaitOutcome::Answered(Ok(()))), Ok(()));
    assert_eq!(wait_result(WaitOutcome::RunnerGone), Err("runner disconnected".to_string()));
    assert_eq!(wait_result(WaitOutcome::TimedOut), Err("timed out waiting for service".to_string()));
    assert_eq!(not_registered(), "service not registered");
}

#[test]
fn stop_errors_are_json_escaped() {
    let response = stop_response(Err("a\"b\\c\u{1}\u{8}\t\n\u{c}\r\u{1f}é"));
    assert!(response.ends_with("{\"error\":\"a\\\"b\\\\c\\u0001\\b\\t\\n\\f\\r\\u001fé\"}"), "{response}");
}

#[test]
fn launch_errors_have_messages() {
    assert_eq!(LaunchError::NotRegistered.message(), "service not registered");
    assert_eq!(LaunchError::NotStartable.message(), "service is already starting or ready");
    assert_eq!(LaunchError::BadPort.message(), "upstream port is not available to this service");
}
