use clipboard_cli::copy::server_failure;

#[test]
fn a_server_that_says_why_it_failed_is_quoted() {
    assert_eq!(
        server_failure("no display to connect to\n", None),
        "no display to connect to"
    );
    assert_eq!(
        server_failure("  no display \n\n", Some("broken pipe".to_owned())),
        "  no display"
    );
}

#[test]
fn a_silent_server_is_explained_by_what_failed() {
    assert_eq!(
        server_failure("", Some("broken pipe".to_owned())),
        "failed to start clipboard server: broken pipe"
    );
    assert_eq!(
        server_failure(" \n", None),
        "clipboard server exited unexpectedly"
    );
}
