use clipboard_cli::platform::{
    format_markers, offers_hint, offers_pasteboard_marker, PASSWORD_MANAGER_HINT,
};

fn types(names: &[&str]) -> Vec<String> {
    names.iter().map(|name| (*name).to_owned()).collect()
}

#[test]
fn a_password_managers_hint_marks_a_copy_as_secret() {
    assert_eq!(PASSWORD_MANAGER_HINT, "x-kde-passwordManagerHint");
    assert!(offers_hint(&types(&["text/plain", "x-kde-passwordManagerHint"])));
    assert!(!offers_hint(&types(&["text/plain", "UTF8_STRING"])));
    assert!(!offers_hint(&types(&[])));
}

#[test]
fn nspasteboard_types_mark_a_copy_as_secret() {
    for marker in [
        "org.nspasteboard.ConcealedType",
        "org.nspasteboard.TransientType",
        "org.nspasteboard.AutoGeneratedType",
        "com.agilebits.onepassword",
    ] {
        assert!(offers_pasteboard_marker(&types(&["public.utf8-plain-text", marker])));
    }
    assert!(!offers_pasteboard_marker(&types(&["public.utf8-plain-text"])));
}

#[test]
fn windows_formats_that_keep_copies_out_of_history() {
    assert_eq!(
        format_markers(),
        [
            "ExcludeClipboardContentFromMonitorProcessing",
            "CanIncludeInClipboardHistory",
            "Clipboard Viewer Ignore",
        ]
    );
}
