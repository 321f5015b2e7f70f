use lazy::listener::{
    check_activated_descriptor, select_systemd_fd, ActivationError, DescriptorProblem, SocketConstants,
};

#[test]
fn selects_a_named_systemd_descriptor() {
    assert_eq!(select_systemd_fd("HTTPS", 42, 42, 2, "HTTP:HTTPS").unwrap(), 4);
}

#[test]
fn rejects_systemd_activation_for_another_process() {
    let error = select_systemd_fd("HTTPS", 42, 7, 1, "HTTPS").unwrap_err();
    assert!(error.message().contains("LISTEN_PID"));
    assert_eq!(error.message(), "LISTEN_PID is 7, expected 42");
}

#[test]
fn rejects_ambiguous_systemd_descriptor_names() {
    let error = select_systemd_fd("HTTPS", 42, 42, 2, "HTTPS:HTTPS").unwrap_err();
    assert!(error.message().contains("found 2"));
    assert_eq!(error.message(), "expected exactly one activated socket named \"HTTPS\", found 2");
}

#[test]
fn name_count_must_match_descriptor_count() {
    let error = select_systemd_fd("HTTPS", 1, 1, 3, "HTTP:HTTPS").unwrap_err();
    assert!(matches!(error, ActivationError::NameCount { names: 2, count: 3 }));
    assert_eq!(error.message(), "LISTEN_FDNAMES contains 2 names for 3 descriptors");
}

#[test]
fn missing_name_finds_nothing() {
    let error = select_systemd_fd("admin", 1, 1, 1, "HTTPS").unwrap_err();
    assert!(error.message().ends_with("found 0"));
    assert_eq!(select_systemd_fd("HTTPS", 1, 1, 1, "HTTPS").unwrap(), 3);
    assert_eq!(ActivationError::TooLarge.message(), "activated descriptor number is too large");
}

#[test]
fn activated_descriptors_must_be_listening_inet_streams() {
    let c = SocketConstants { stream: 1, inet: 2, inet6: 10 };
    assert_eq!(check_activated_descriptor(1, 2, Some(1), c), Ok(()));
    assert_eq!(check_activated_descriptor(1, 10, None, c), Ok(()));
    assert_eq!(check_activated_descriptor(2, 2, Some(1), c), Err(DescriptorProblem::NotStream));
    assert_eq!(check_activated_descriptor(1, 1, Some(1), c), Err(DescriptorProblem::NotInet));
    assert_eq!(check_activated_descriptor(1, 2, Some(0), c), Err(DescriptorProblem::NotListening));
    assert_eq!(DescriptorProblem::NotStream.message(), "activated descriptor is not a TCP stream socket");
    assert_eq!(DescriptorProblem::NotInet.message(), "activated descriptor is not a TCP/IP socket");
    assert_eq!(DescriptorProblem::NotListening.message(), "activated descriptor is not a listening socket");
}
