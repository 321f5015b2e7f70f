use lazy::cli::{host_routing, DEFAULT_LISTEN, DEFAULT_PORT_RANGE_END, DEFAULT_PORT_RANGE_START};
use lazy::daemon::registry::Registry;
use lazy::daemon::routing::{
    normalize_domain, strip_suffix_ascii_case, validate_dns_label, xip_service_name_from_host, HostRouting,
    LabelKind, LabelProblem, RoutingError,
};

fn suffix(s: &str) -> HostRouting {
    HostRouting::Suffix(s.to_string())
}

#[test]
fn proxy_defaults_to_localhost_suffix_routing() {
    let routing = host_routing(None, None, None).unwrap();
    assert_eq!(routing, HostRouting::Suffix(".localhost".to_string()));
    assert_eq!(DEFAULT_LISTEN, "127.0.0.1:8080");
}

#[test]
fn proxy_builds_xip_routing_from_domain_and_ip() {
    let routing = host_routing(None, Some("XIP.EXAMPLE.COM."), Some([192, 0, 2, 10])).unwrap();
    assert!(matches!(routing, HostRouting::Xip(_)));
}

#[test]
fn host_routing_uses_a_given_suffix_and_needs_both_xip_settings() {
    assert_eq!(
        host_routing(Some(".test".to_string()), None, None).unwrap(),
        suffix(".test")
    );
    assert_eq!(host_routing(None, Some("xip.example.com"), None).unwrap(), suffix(".localhost"));
    assert!(host_routing(None, Some("bad_domain"), Some([127, 0, 0, 1])).is_err());
    assert_eq!(DEFAULT_PORT_RANGE_START, 4000);
    assert_eq!(DEFAULT_PORT_RANGE_END, 4999);
}

#[test]
fn xip_routing_generates_wildcard_compatible_hostname() {
    let routing = HostRouting::xip("XIP.EXAMPLE.COM.", [192, 0, 2, 10]).unwrap();

    assert_eq!(
        routing.hostname_for_service("vite").unwrap(),
        "vite-192-0-2-10.xip.example.com"
    );
}

#[test]
fn xip_routing_extracts_service_case_insensitively() {
    let routing = HostRouting::xip("xip.example.com", [192, 0, 2, 10]).unwrap();

    assert_eq!(
        routing.service_name_from_host("VITE-192-0-2-10.XIP.EXAMPLE.COM"),
        Some("vite".to_string())
    );
    assert_eq!(
        routing.service_name_from_host("vite-192-0-2-11.xip.example.com"),
        Some("vite".to_string())
    );
    assert_eq!(routing.service_name_from_host("vite-192-0-2-256.xip.example.com"), None);
    assert_eq!(routing.service_name_from_host("vite-192-0-2-11.other.example.com"), None);
}

#[test]
fn xip_urls_use_https_and_omit_the_default_port() {
    let routing = HostRouting::xip("xip.example.com", [192, 0, 2, 10]).unwrap();
    let default_tls = Registry::new(routing.clone(), 443, None, true);
    let custom_tls = Registry::new(routing, 18443, None, true);

    assert_eq!(
        default_tls.url_for_service("vite").unwrap(),
        "https://vite-192-0-2-10.xip.example.com"
    );
    assert_eq!(
        custom_tls.url_for_service("vite").unwrap(),
        "https://vite-192-0-2-10.xip.example.com:18443"
    );
}

#[test]
fn localhost_suffix_routing_remains_supported() {
    let routing = suffix(".localhost");
    let registry = Registry::new(routing.clone(), 8080, None, false);

    assert_eq!(routing.service_name_from_host("VITE.LOCALHOST"), Some("VITE".to_string()));
    assert_eq!(registry.url_for_service("vite").unwrap(), "http://vite.localhost:8080");
}

#[test]
fn xip_routing_rejects_invalid_domains_and_service_names() {
    assert!(HostRouting::xip("bad_domain.example", [127, 0, 0, 1]).is_err());
    assert!(HostRouting::xip("xip..example.com", [127, 0, 0, 1]).is_err());

    let routing = HostRouting::xip("xip.example.com", [127, 0, 0, 1]).unwrap();
    assert!(routing.hostname_for_service("Vite").is_err());
    assert!(routing.hostname_for_service("vite.dev").is_err());
    assert!(routing.hostname_for_service("-vite").is_err());
}

#[test]
fn xip_routing_rejects_service_names_that_overflow_the_first_label() {
    let routing = HostRouting::xip("xip.example.com", [255, 255, 255, 255]).unwrap();
    let service = "a".repeat(48);

    assert!(routing.hostname_for_service(&service).is_err());
}

#[test]
fn status_hostname_for_suffix() {
    let routing = suffix(".localhost");
    assert_eq!(routing.status_hostname().unwrap(), "localhost");
}

#[test]
fn status_hostname_for_suffix_without_dot() {
    let routing = suffix("local");
    assert_eq!(routing.status_hostname().unwrap(), "local");
}

#[test]
fn status_hostname_for_xip() {
    let routing = HostRouting::xip("xip.example.com", [127, 0, 0, 1]).unwrap();
    assert_eq!(routing.status_hostname().unwrap(), "127-0-0-1.xip.example.com");
}

#[test]
fn is_status_host_matches_for_xip_bare_domain() {
    let routing = HostRouting::xip("xip.example.com", [127, 0, 0, 1]).unwrap();
    assert!(routing.is_status_host("127-0-0-1.xip.example.com"));
    assert!(routing.is_status_host("192-0-2-10.xip.example.com"));
    assert!(routing.is_status_host("127-0-0-1.XIP.EXAMPLE.COM"));
    assert!(!routing.is_status_host("192-0-2-256.xip.example.com"));
}

#[test]
fn is_status_host_does_not_match_service_hostname() {
    let routing = HostRouting::xip("xip.example.com", [127, 0, 0, 1]).unwrap();
    assert!(!routing.is_status_host("vite-127-0-0-1.xip.example.com"));
}

#[test]
fn is_status_host_matches_bare_suffix() {
    let routing = suffix(".localhost");
    assert!(routing.is_status_host("localhost"));
    assert!(routing.is_status_host("LOCALHOST"));
}

#[test]
fn suffix_made_only_of_dots_has_no_status_host() {
    let routing = suffix("..");
    assert_eq!(routing.status_hostname(), Err(RoutingError::NoBareHostname));
    assert!(!routing.is_status_host(""));
}

#[test]
fn suffix_hostname_round_trip_on_concrete_names() {
    let routing = suffix(".localhost");
    let host = routing.hostname_for_service("api").unwrap();
    assert_eq!(host, "api.localhost");
    assert_eq!(routing.service_name_from_host(&host), Some("api".to_string()));
    assert!(routing.hostname_for_service("").is_err());
    assert_eq!(routing.service_name_from_host(".localhost"), None);
}

#[test]
fn xip_hostname_round_trip_on_concrete_names() {
    let routing = HostRouting::xip("xip.example.com", [10, 1, 2, 3]).unwrap();
    let host = routing.hostname_for_service("web").unwrap();
    assert_eq!(host, "web-10-1-2-3.xip.example.com");
    assert_eq!(routing.service_name_from_host(&host), Some("web".to_string()));
    assert!(!routing.is_status_host(&host));
}

#[test]
fn normalized_domains_are_lower_case_without_trailing_dot() {
    assert_eq!(normalize_domain("  Xip.Example.COM.. ").unwrap(), "xip.example.com");
    let once = normalize_domain("XIP.example.com.").unwrap();
    assert_eq!(normalize_domain(&once).unwrap(), once);
    assert!(normalize_domain("").is_err());
    assert!(normalize_domain("a..b").is_err());
}

#[test]
fn dns_labels_are_checked() {
    assert!(validate_dns_label("vite", LabelKind::ServiceName).is_ok());
    assert!(validate_dns_label("", LabelKind::ServiceName).is_err());
    assert!(validate_dns_label("a-", LabelKind::ServiceName).is_err());
    assert!(validate_dns_label(&"a".repeat(64), LabelKind::ServiceName).is_err());
    assert!(validate_dns_label(&"a".repeat(63), LabelKind::ServiceName).is_ok());
    assert!(validate_dns_label("UPPER", LabelKind::ServiceName).is_err());
}

#[test]
fn suffixes_are_stripped_ignoring_case() {
    assert_eq!(strip_suffix_ascii_case("API.LOCALHOST", ".localhost"), Some("API".to_string()));
    assert_eq!(strip_suffix_ascii_case("localhost", ".localhost"), None);
    assert_eq!(strip_suffix_ascii_case(".localhost", ".localhost"), Some(String::new()));
}

#[test]
fn xip_names_need_a_valid_address_label() {
    assert_eq!(
        xip_service_name_from_host("a-b-1-2-3-4.xip.example.com", "xip.example.com"),
        Some("a-b".to_string())
    );
    assert_eq!(
        xip_service_name_from_host("1-2-3-4.xip.example.com", "xip.example.com"),
        Some(String::new())
    );
    assert_eq!(
        xip_service_name_from_host("a-01-2-3-4.xip.example.com", "xip.example.com"),
        Some("a".to_string())
    );
    assert_eq!(xip_service_name_from_host("a.b.xip.example.com", "xip.example.com"), None);
}

#[test]
fn routing_descriptions() {
    assert_eq!(suffix(".localhost").description(), "suffix \".localhost\"");
    let routing = HostRouting::xip("xip.example.com", [192, 0, 2, 10]).unwrap();
    assert_eq!(
        routing.description(),
        "xip domain \"xip.example.com\" generating URLs with address 192.0.2.10"
    );
}

#[test]
fn each_routing_error_has_its_message() {
    assert_eq!(normalize_domain(" . ").unwrap_err(), RoutingError::EmptyDomain);
    assert_eq!(RoutingError::EmptyDomain.message(), "xip domain must not be empty");
    let long_domain = vec!["a".repeat(63); 5].join(".");
    assert_eq!(normalize_domain(&long_domain).unwrap_err(), RoutingError::DomainTooLong);
    assert_eq!(RoutingError::DomainTooLong.message(), "xip domain exceeds 253 characters");

    let cases = [
        ("", LabelProblem::Empty, "service name must not be empty"),
        ("é", LabelProblem::NotAscii, "service name must contain only ASCII characters"),
        (
            "a_b",
            LabelProblem::BadCharacter,
            "service name must contain only lowercase letters, digits, and hyphens",
        ),
        ("-a", LabelProblem::HyphenAtEdge, "service name must start and end with a letter or digit"),
    ];
    for (label, problem, message) in cases {
        let error = validate_dns_label(label, LabelKind::ServiceName).unwrap_err();
        assert_eq!(error, RoutingError::Label(LabelKind::ServiceName, problem));
        assert_eq!(error.message(), message);
    }
    let too_long = validate_dns_label(&"a".repeat(64), LabelKind::DomainLabel).unwrap_err();
    assert_eq!(too_long.message(), "xip domain label exceeds 63 characters");
    assert_eq!(
        normalize_domain("a_b.example").unwrap_err().message(),
        "xip domain label must contain only lowercase letters, digits, and hyphens"
    );

    assert_eq!(suffix(".localhost").hostname_for_service("").unwrap_err(), RoutingError::EmptyServiceName);
    assert_eq!(RoutingError::EmptyServiceName.message(), "service name must not be empty");

    let routing = HostRouting::xip("xip.example.com", [255, 255, 255, 255]).unwrap();
    let error = routing.hostname_for_service(&"a".repeat(48)).unwrap_err();
    assert_eq!(error, RoutingError::FirstLabelTooLong);
    assert_eq!(
        error.message(),
        "service name is too long for an xip hostname (the service and encoded IP must fit in one 63-character DNS label)"
    );

    let long_zone = vec!["b".repeat(63); 3].join(".") + "." + &"c".repeat(50);
    let routing = HostRouting::xip(&long_zone, [1, 1, 1, 1]).unwrap();
    let error = routing.hostname_for_service(&"a".repeat(40)).unwrap_err();
    assert_eq!(error, RoutingError::HostnameTooLong);
    assert_eq!(error.message(), "generated xip hostname exceeds 253 characters");

    assert_eq!(RoutingError::NoBareHostname.message(), "suffix has no bare hostname");
}

#[test]
fn xip_host_names_route_in_any_case() {
    let routing = HostRouting::xip("xip.example.com", [192, 0, 2, 10]).unwrap();
    let host = routing.hostname_for_service("vite").unwrap();
    assert_eq!(routing.service_name_from_host(&host.to_ascii_uppercase()), Some("vite".to_string()));
    assert_eq!(routing.service_name_from_host("Vite-192-0-2-10.Xip.Example.Com"), Some("vite".to_string()));
}
