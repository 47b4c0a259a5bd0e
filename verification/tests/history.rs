use clipboard_cli::history::{
    history_file_in, now, push, require_path, require_path_in, resolve_path, resolve_path_in,
    seconds_or_zero, Entry, MAX_ENTRIES, MAX_ENTRY_BYTES,
};

fn entry(text: &str, time: u64) -> Entry {
    Entry {
        text: text.to_owned(),
        source: None,
        time,
    }
}

fn texts(entries: &[Entry]) -> Vec<&str> {
    entries.iter().map(|entry| entry.text.as_str()).collect()
}

#[test]
fn push_adds_the_newest_entry_last() {
    let mut entries = vec![entry("a", 1)];
    assert!(push(&mut entries, entry("b", 2)));
    assert_eq!(texts(&entries), ["a", "b"]);
}

#[test]
fn push_moves_a_repeated_copy_to_the_end() {
    let mut entries = vec![entry("a", 1), entry("b", 2)];
    assert!(push(&mut entries, entry("a", 3)));
    assert_eq!(texts(&entries), ["b", "a"]);
    assert_eq!(entries[1].time, 3);
}

#[test]
fn push_keeps_the_source_of_an_earlier_copy() {
    let mut entries = vec![
        Entry {
            source: Some("main.rs".into()),
            ..entry("fn main() {}", 1)
        },
        entry("b", 2),
    ];
    assert!(push(&mut entries, entry("fn main() {}", 3)));
    assert_eq!(entries[1].source, Some("main.rs".into()));
}

#[test]
fn push_ignores_empty_oversized_and_unchanged_text() {
    let mut entries = vec![entry("a", 1)];
    assert!(!push(&mut entries, entry("", 2)));
    assert!(!push(
        &mut entries,
        entry(&"x".repeat(MAX_ENTRY_BYTES + 1), 2)
    ));
    assert!(!push(&mut entries, entry("a", 2)));
    assert_eq!(entries, [entry("a", 1)]);
}

#[test]
fn push_drops_the_oldest_entries_past_the_limit() {
    let mut entries = (0..MAX_ENTRIES as u64)
        .map(|i| entry(&i.to_string(), i))
        .collect();
    assert!(push(&mut entries, entry("new", 1000)));
    assert_eq!(entries.len(), MAX_ENTRIES);
    assert_eq!(entries[0].text, "1");
    assert_eq!(entries[MAX_ENTRIES - 1].text, "new");
}

#[test]
fn an_empty_override_turns_history_off() {
    assert_eq!(resolve_path(Some("".into())), None);
    assert_eq!(
        resolve_path(Some("h.jsonl".into())),
        Some(String::from("h.jsonl"))
    );
}

#[test]
fn push_counts_the_size_limit_in_bytes() {
    let mut entries = Vec::new();
    // Two bytes a char: half the limit in chars is the whole limit in bytes.
    assert!(push(&mut entries, entry(&"é".repeat(MAX_ENTRY_BYTES / 2), 1)));
    assert!(!push(
        &mut entries,
        entry(&"é".repeat(MAX_ENTRY_BYTES / 2 + 1), 2)
    ));
    assert_eq!(entries.len(), 1);
}

#[test]
fn pushing_the_same_copy_twice_changes_nothing_the_second_time() {
    let mut entries = vec![entry("a", 1), entry("b", 2)];
    assert!(push(&mut entries, entry("a", 3)));
    let after_first = entries.clone();
    assert!(!push(&mut entries, entry("a", 4)));
    assert_eq!(entries, after_first);
}

#[test]
fn a_new_source_replaces_the_newest_copy() {
    let mut entries = vec![entry("a", 1)];
    assert!(push(
        &mut entries,
        Entry {
            source: Some("a.txt".into()),
            ..entry("a", 2)
        }
    ));
    assert_eq!(entries.len(), 1);
    assert_eq!(entries[0].source, Some("a.txt".into()));
    assert_eq!(entries[0].time, 2);
}

#[test]
fn push_keeps_each_text_once_and_the_rest_in_order() {
    let mut entries = vec![entry("a", 1), entry("b", 2), entry("c", 3), entry("d", 4)];
    assert!(push(&mut entries, entry("b", 5)));
    assert_eq!(texts(&entries), ["a", "c", "d", "b"]);
}

#[test]
fn history_off_is_an_error_naming_the_variable() {
    assert_eq!(
        require_path(Some("".into())),
        Err("clipboard history is turned off because CB_HISTORY_FILE is empty".to_owned())
    );
    assert_eq!(require_path(Some("h.jsonl".into())), Ok("h.jsonl".to_owned()));
}

#[test]
fn history_lives_in_a_cb_directory_of_the_data_directory() {
    let path = history_file_in("/data");
    let sep = std::path::MAIN_SEPARATOR;
    assert_eq!(path, format!("/data{}cb{}history.jsonl", sep, sep));
}

#[test]
fn the_clock_is_past_the_epoch() {
    // 2020-09-13, long before this was written.
    assert!(now() > 1_600_000_000);
}

#[test]
fn without_an_override_history_is_in_the_data_directory() {
    let sep = std::path::MAIN_SEPARATOR;
    let expected = format!("/data{}cb{}history.jsonl", sep, sep);
    assert_eq!(
        resolve_path_in(None, Some("/data".to_owned())),
        Some(expected.clone())
    );
    assert_eq!(resolve_path_in(None, None), None);
    assert_eq!(
        resolve_path_in(Some("h.jsonl".to_owned()), Some("/data".to_owned())),
        Some("h.jsonl".to_owned())
    );
    assert_eq!(resolve_path_in(Some("".to_owned()), Some("/data".to_owned())), None);
    assert_eq!(require_path_in(None, Some("/data".to_owned())), Ok(expected));
}

#[test]
fn without_a_data_directory_history_is_off() {
    assert_eq!(
        require_path_in(None, None),
        Err("clipboard history is turned off because CB_HISTORY_FILE is empty".to_owned())
    );
    assert_eq!(
        require_path_in(Some("".to_owned()), Some("/data".to_owned())),
        Err("clipboard history is turned off because CB_HISTORY_FILE is empty".to_owned())
    );
}

#[test]
fn a_clock_before_the_epoch_reads_zero() {
    assert_eq!(seconds_or_zero(None), 0);
    assert_eq!(seconds_or_zero(Some(1_700_000_000)), 1_700_000_000);
}
