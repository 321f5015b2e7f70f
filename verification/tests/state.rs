use lazy::state::{
    check_state_dir, ensure_current_user_owns, join_path, set_state_dir, socket_path, stale_socket_after_connect,
    stale_socket_before_remove, stale_socket_first, state_dir, ControlSocketGuard, SocketProbe, StaleStep,
    StateError,
};

fn socket(owner: u32, device: u64, inode: u64) -> SocketProbe {
    SocketProbe::Present { is_socket: true, owner, device, inode }
}

#[test]
fn state_dir_can_be_chosen_once() {
    let mut configured = None;
    set_state_dir(&mut configured, "/tmp/a".to_string()).unwrap();
    let again = set_state_dir(&mut configured, "/tmp/b".to_string()).unwrap_err();
    assert!(matches!(again, StateError::AlreadyConfigured));
    assert_eq!(configured.as_deref(), Some("/tmp/a"));
    assert_eq!(again.message(), "state directory was already configured");
}

#[test]
fn state_dir_defaults_to_dot_lazy_in_home() {
    assert_eq!(state_dir(None, Some("/home/u")).unwrap(), "/home/u/.lazy");
    assert_eq!(state_dir(None, Some("/home/u/")).unwrap(), "/home/u/.lazy");
    assert_eq!(state_dir(Some("/srv/lazy"), Some("/home/u")).unwrap(), "/srv/lazy");
    let error = state_dir(None, None).unwrap_err();
    assert_eq!(error.message(), "could not locate home directory");
}

#[test]
fn socket_lives_in_the_state_dir() {
    assert_eq!(socket_path("/home/u/.lazy"), "/home/u/.lazy/lazy.sock");
    assert_eq!(join_path("", "x"), "x");
}

#[test]
fn ownership_is_checked() {
    assert!(ensure_current_user_owns("/p", 5, 5).is_ok());
    let error = ensure_current_user_owns("/p", 0, 5).unwrap_err();
    assert_eq!(error.message(), "/p is owned by UID 0, but lazy is running as UID 5");
    let error = check_state_dir("/p", false, 5, 5).unwrap_err();
    assert_eq!(error.message(), "state directory /p is not a directory");
    assert!(check_state_dir("/p", true, 5, 5).is_ok());
}

#[test]
fn removes_an_owned_stale_control_socket() {
    let first = socket(5, 1, 2);
    assert!(matches!(stale_socket_first("/s", first, 5), StaleStep::Connect));
    assert!(matches!(stale_socket_after_connect("/s", false), StaleStep::Recheck));
    assert!(matches!(stale_socket_before_remove("/s", first, socket(5, 1, 2)), StaleStep::Remove));
    assert!(matches!(stale_socket_first("/s", SocketProbe::Missing, 5), StaleStep::Done));
}

#[test]
fn refuses_to_remove_a_live_control_socket() {
    match stale_socket_after_connect("/s", true) {
        StaleStep::Refuse(error) => assert!(error.message().contains("already listening")),
        other => panic!("expected a refusal, got {other:?}"),
    }
}

#[test]
fn refuses_to_remove_a_non_socket_control_path() {
    let file = SocketProbe::Present { is_socket: false, owner: 5, device: 1, inode: 2 };
    match stale_socket_first("/s", file, 5) {
        StaleStep::Refuse(error) => {
            assert!(error.message().contains("non-socket"));
            assert_eq!(error.message(), "refusing to remove non-socket control path /s");
        }
        other => panic!("expected a refusal, got {other:?}"),
    }
}

#[test]
fn refuses_a_socket_of_another_user_or_one_that_changed() {
    assert!(matches!(
        stale_socket_first("/s", socket(0, 1, 2), 5),
        StaleStep::Refuse(StateError::WrongOwner { owner: 0, euid: 5, .. })
    ));
    match stale_socket_before_remove("/s", socket(5, 1, 2), socket(5, 1, 3)) {
        StaleStep::Refuse(error) => {
            assert_eq!(error.message(), "control socket /s changed while checking whether it was stale")
        }
        other => panic!("expected a refusal, got {other:?}"),
    }
    assert!(matches!(
        stale_socket_before_remove("/s", socket(5, 1, 2), SocketProbe::Missing),
        StaleStep::Done
    ));
}

#[test]
fn guard_removes_only_its_own_socket() {
    let guard = ControlSocketGuard::new("/s".to_string(), 1, 2);
    assert!(guard.owns(socket(5, 1, 2), 5));
    assert!(!guard.owns(socket(5, 1, 9), 5));
    assert!(!guard.owns(socket(6, 1, 2), 5));
    assert!(!guard.owns(SocketProbe::Missing, 5));
    assert!(!guard.owns(SocketProbe::Present { is_socket: false, owner: 5, device: 1, inode: 2 }, 5));
}

#[test]
fn live_socket_message_names_the_path() {
    match stale_socket_after_connect("/home/u/.lazy/lazy.sock", true) {
        StaleStep::Refuse(error) => assert_eq!(
            error.message(),
            "another lazy daemon is already listening at /home/u/.lazy/lazy.sock"
        ),
        other => panic!("expected a refusal, got {other:?}"),
    }
}
