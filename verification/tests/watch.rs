use std::cell::Cell;

use clipboard_cli::watch::autostart::{
    desktop_entry, desktop_entry_path_from, desktop_entry_path_in, install, launch_agent, launch_agent_path_from, launch_agent_path_in,
    uninstall, LAUNCH_AGENT,
};
use clipboard_cli::platform::{change_count, is_concealed};
use clipboard_cli::watch::control::{
    address, address_from, address_in, address_name_of, asks_to_stop, claim_step, greets, ClaimEvent, ClaimStep,
};
use clipboard_cli::watch::{
    count_moved, first_wait, fnv1a, next_wait, read_step, ReadEvent, ReadStep, WaitOutcome, Wake,
    WatchStep, Watcher, POLL_INTERVAL_SECS,
};

#[test]
fn records_each_new_copy_once() {
    let mut watcher = Watcher::default();
    assert!(watcher.observe(Some("a"), || false));
    assert!(!watcher.observe(Some("a"), || false));
    assert!(watcher.observe(Some("b"), || false));
    assert!(watcher.observe(Some("a"), || false));
}

#[test]
fn a_copy_counts_again_after_something_that_isnt_text() {
    let mut watcher = Watcher::default();
    assert!(watcher.observe(Some("a"), || false));
    assert!(!watcher.observe(None, || false));
    assert!(watcher.observe(Some("a"), || false));
}

#[test]
fn concealed_copies_are_skipped_and_checked_once() {
    let mut watcher = Watcher::default();
    let checks = Cell::new(0);
    let concealed = || {
        checks.set(checks.get() + 1);
        true
    };
    assert!(!watcher.observe(Some("hunter2"), concealed));
    assert!(!watcher.observe(Some("hunter2"), concealed));
    assert_eq!(checks.get(), 1);
    assert!(watcher.observe(Some("not a secret"), || false));
}

#[test]
fn fnv1a_matches_its_reference_values() {
    assert_eq!(fnv1a(b""), 0xcbf2_9ce4_8422_2325);
    assert_eq!(fnv1a(b"a"), 0xaf63_dc4c_8601_ec8c);
    assert_eq!(fnv1a(b"foobar"), 0x8594_4171_f739_67e8);
}

#[test]
fn watchers_are_told_apart_by_history_file() {
    let temp = String::from("/tmp");
    let a = address("/a/history.jsonl", temp.clone());
    let b = address("/b/history.jsonl", temp.clone());
    assert_ne!(a, b);
    assert_eq!(a, address("/a/history.jsonl", temp));
}

#[test]
fn desktop_entries_quote_the_path() {
    let entry = desktop_entry("/home/a b/c$d\"e\\f%g");
    assert!(
        entry.contains(r#"Exec="/home/a b/c\\$d\\"e\\\\f%%g" watch"#),
        "{}",
        entry
    );
    assert!(entry.starts_with("[Desktop Entry]\nType=Application\n"));
}

#[test]
fn launch_agents_escape_the_path() {
    let agent = launch_agent("x", "/Users/a&b/<cb>");
    assert!(
        agent.contains("<string>/Users/a&amp;b/&lt;cb&gt;</string>"),
        "{}",
        agent
    );
    assert!(agent.contains("<key>RunAtLoad</key>\n    <true/>"));
}

#[test]
fn the_address_name_is_the_hash_in_hex() {
    assert_eq!(address_name_of(""), "cb-watch-cbf29ce484222325");
    assert_eq!(address_name_of("a"), "cb-watch-af63dc4c8601ec8c");
    let sep = std::path::MAIN_SEPARATOR;
    assert_eq!(
        address_in("/run/user/1000", "a"),
        format!("/run/user/1000{}cb-watch-af63dc4c8601ec8c", sep)
    );
}

#[test]
fn autostart_files_go_where_each_desktop_looks() {
    let sep = std::path::MAIN_SEPARATOR;
    assert_eq!(
        desktop_entry_path_in("/home/a/.config"),
        format!("/home/a/.config{}autostart{}cb-watch.desktop", sep, sep)
    );
    assert_eq!(
        launch_agent_path_in("/Users/a"),
        format!(
            "/Users/a{}Library{}LaunchAgents{}{}.plist",
            sep, sep, sep, LAUNCH_AGENT
        )
    );
}

#[test]
fn launch_agents_name_their_label() {
    let agent = launch_agent(LAUNCH_AGENT, "/usr/local/bin/cb");
    assert!(agent.contains("<string>com.github.amilajack.cb.watch</string>"));
    assert!(agent.starts_with("<?xml version=\"1.0\" encoding=\"UTF-8\"?>\n"));
    assert!(agent.ends_with("</plist>\n"));
}

#[test]
fn where_login_items_arent_supported_install_says_so() {
    assert_eq!(
        install("/usr/bin/cb"),
        Err("starting at login isn't supported here".to_owned())
    );
    assert_eq!(uninstall(), Ok(None));
}

#[test]
fn a_desktop_entry_is_complete() {
    assert_eq!(
        desktop_entry("/usr/bin/cb"),
        "[Desktop Entry]\nType=Application\nName=cb clipboard history\nComment=Records what you copy, for cb peek\nExec=\"/usr/bin/cb\" watch\nTerminal=false\nNoDisplay=true\nX-GNOME-Autostart-enabled=true\n"
    );
}

#[test]
fn a_watcher_is_known_by_its_greeting_and_stops_when_asked() {
    assert!(greets("cb-watch\n"));
    assert!(greets("cb-watch"));
    assert!(!greets("cb-watcher\n"));
    assert!(!greets(""));
    assert!(asks_to_stop("stop\n"));
    assert!(asks_to_stop("stop \r\n"));
    assert!(!asks_to_stop("stopped\n"));
    assert!(!asks_to_stop(" stop"));
}

#[test]
fn platforms_without_the_means_say_nothing_changed_or_was_concealed() {
    assert_eq!(change_count(), None);
    assert!(!is_concealed());
}

#[test]
fn a_failed_read_is_tried_again_after_longer_and_longer_waits() {
    assert_eq!(read_step(0, ReadEvent::Failed), ReadStep::Retry(100));
    assert_eq!(read_step(1, ReadEvent::Failed), ReadStep::Retry(200));
    assert_eq!(read_step(3, ReadEvent::Failed), ReadStep::Retry(800));
    assert_eq!(read_step(4, ReadEvent::Failed), ReadStep::GiveUp(1600));
}

#[test]
fn a_read_that_works_is_handed_to_the_watcher() {
    for attempt in 0..5 {
        assert_eq!(read_step(attempt, ReadEvent::Text), ReadStep::Observe);
        assert_eq!(read_step(attempt, ReadEvent::NotText), ReadStep::ObserveNothing);
    }
}

#[test]
fn the_clipboard_is_read_again_when_its_count_moves() {
    assert!(count_moved(None, None));
    assert!(count_moved(Some(3), None));
    assert!(count_moved(None, Some(3)));
    assert!(count_moved(Some(3), Some(4)));
    assert!(!count_moved(Some(3), Some(3)));
}

#[test]
fn a_watcher_takes_its_address_or_leaves_it_to_the_one_that_answers() {
    assert_eq!(claim_step(0, ClaimEvent::Bound), (0, ClaimStep::Listen));
    assert_eq!(claim_step(0, ClaimEvent::InUse), (0, ClaimStep::AskWhetherRunning));
    assert_eq!(claim_step(0, ClaimEvent::Answered), (0, ClaimStep::LeaveToRunning));
    assert_eq!(claim_step(0, ClaimEvent::Unanswered), (0, ClaimStep::RemoveStale));
    assert_eq!(claim_step(0, ClaimEvent::BindFailed), (0, ClaimStep::Fail));
    assert_eq!(claim_step(1, ClaimEvent::RemoveFailed), (1, ClaimStep::Fail));
}

#[test]
fn an_address_left_behind_is_taken_over_a_few_times_at_most() {
    assert_eq!(claim_step(0, ClaimEvent::Removed), (1, ClaimStep::Bind));
    assert_eq!(claim_step(1, ClaimEvent::Removed), (2, ClaimStep::Bind));
    assert_eq!(claim_step(2, ClaimEvent::Removed), (3, ClaimStep::FailInUse));
}

#[test]
fn the_address_is_in_the_runtime_directory_or_else_the_temp_directory() {
    let sep = std::path::MAIN_SEPARATOR;
    let name = address_name_of("/a/history.jsonl");
    assert_eq!(
        address_from(Some("/run/user/1000".to_owned()), "/tmp".to_owned(), "/a/history.jsonl"),
        format!("/run/user/1000{}{}", sep, name)
    );
    assert_eq!(
        address_from(None, "/tmp".to_owned(), "/a/history.jsonl"),
        format!("/tmp{}{}", sep, name)
    );
    assert_ne!(
        address_from(None, "/tmp".to_owned(), "/a/history.jsonl"),
        address_from(None, "/tmp".to_owned(), "/b/history.jsonl")
    );
}

#[test]
fn autostart_files_need_their_directory() {
    let sep = std::path::MAIN_SEPARATOR;
    assert_eq!(
        desktop_entry_path_from(Some("/c".to_owned())),
        Ok(format!("/c{}autostart{}cb-watch.desktop", sep, sep))
    );
    assert_eq!(
        desktop_entry_path_from(None),
        Err("couldn't find your config directory".to_owned())
    );
    assert_eq!(
        launch_agent_path_from(Some("/h".to_owned())),
        Ok(format!("/h{}Library{}LaunchAgents{}{}.plist", sep, sep, sep, LAUNCH_AGENT))
    );
    assert_eq!(
        launch_agent_path_from(None),
        Err("couldn't find your home directory".to_owned())
    );
}

#[test]
fn when_notifications_stop_the_watcher_polls_every_two_seconds() {
    assert_eq!(POLL_INTERVAL_SECS, 2);
    assert_eq!(first_wait(true), (Wake::Notified, WatchStep::WaitForNotice));
    assert_eq!(first_wait(false), (Wake::Polled, WatchStep::PollAfterSecs(2)));
    assert_eq!(
        next_wait(Wake::Notified, WaitOutcome::Changed),
        (Wake::Notified, WatchStep::WaitForNotice)
    );
    assert_eq!(
        next_wait(Wake::Notified, WaitOutcome::Stopped),
        (Wake::Polled, WatchStep::PollAfterSecs(2))
    );
    assert_eq!(
        next_wait(Wake::Polled, WaitOutcome::Changed),
        (Wake::Polled, WatchStep::PollAfterSecs(2))
    );
}
