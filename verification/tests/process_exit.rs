#[test]
fn helper_exit_immediately() {
    // A child fixture that exits at once with status 0.
}
