use clipboard_cli::history::Entry;
use clipboard_cli::peek::{
    age, displayable, find, first_nonblank_line, line_count, lines_title, shown_line, App, Key, KeyCode, Match,
    Outcome, MATCH_CONTEXT,
};

const NOW: u64 = 1_000_000;

/// An app over `texts`, given oldest first as history keeps them, copied a
/// minute apart.
fn app(texts: &[&str]) -> App {
    let entries = texts
        .iter()
        .enumerate()
        .map(|(i, text)| Entry {
            text: (*text).to_owned(),
            source: None,
            time: NOW - 60 * (texts.len() - i) as u64,
        })
        .collect();
    App::new(entries)
}

fn key(code: KeyCode, ctrl: bool, shift: bool) -> Key {
    Key {
        code,
        ctrl,
        shift,
        alt: false,
    }
}

fn press(app: &mut App, code: KeyCode) -> Outcome {
    app.on_key(key(code, false, false))
}

fn ctrl(app: &mut App, c: char) -> Outcome {
    app.on_key(key(KeyCode::Char(c), true, false))
}

fn type_text(app: &mut App, text: &str) {
    for c in text.chars() {
        assert_eq!(press(app, KeyCode::Char(c)), Outcome::Continue);
    }
}

fn matched(app: &App) -> Vec<&str> {
    (app.matches().iter())
        .map(|m| app.entries()[m.entry].text.as_str())
        .collect()
}

fn selected(app: &App) -> &str {
    &app.entries()[app.selected().expect("something is selected").entry].text
}

#[test]
fn newest_entry_comes_first_and_is_selected() {
    let app = app(&["old", "new"]);
    assert_eq!(matched(&app), ["new", "old"]);
    assert_eq!(selected(&app), "new");
}

#[test]
fn arrows_move_the_selection_and_stop_at_the_ends() {
    let mut app = app(&["old", "new"]);
    press(&mut app, KeyCode::Up);
    assert_eq!(selected(&app), "new");
    press(&mut app, KeyCode::Down);
    assert_eq!(selected(&app), "old");
    press(&mut app, KeyCode::Down);
    assert_eq!(selected(&app), "old");
}

#[test]
fn typing_filters_with_smart_case() {
    let mut app = app(&["Hello world", "hello there", "bye"]);
    type_text(&mut app, "hello");
    assert_eq!(matched(&app), ["hello there", "Hello world"]);
    ctrl(&mut app, 'u');
    type_text(&mut app, "Hello");
    assert_eq!(matched(&app), ["Hello world"]);
}

#[test]
fn ctrl_r_steps_back_through_matches() {
    let mut app = app(&["git push", "ls", "git status"]);
    type_text(&mut app, "git");
    assert_eq!(selected(&app), "git status");
    ctrl(&mut app, 'r');
    assert_eq!(selected(&app), "git push");
    ctrl(&mut app, 's');
    assert_eq!(selected(&app), "git status");
}

#[test]
fn search_matches_any_line_and_scrolls_the_preview_to_it() {
    let text: String = (0..20)
        .map(|i| {
            if i == 12 {
                "the needle\n".to_owned()
            } else {
                format!("line {}\n", i)
            }
        })
        .collect();
    let mut app = app(&[&text]);
    type_text(&mut app, "needle");
    assert_eq!(app.matches(), &[Match { entry: 0, line: 12 }]);
    assert_eq!(app.scroll(), 12 - MATCH_CONTEXT);
    // Drawn 100 by 12, the preview shows 9 lines from the scroll position,
    // the needle's among them.
    app.show_preview(9, Some(line_count(&text)));
    let scroll = app.scroll();
    assert!(scroll <= 12 && 12 < scroll + 9);
    assert_eq!(shown_line(&text, 12), "the needle");
}

#[test]
fn enter_copies_the_selection_and_escape_quits() {
    let mut app = app(&["old", "new"]);
    press(&mut app, KeyCode::Down);
    assert_eq!(press(&mut app, KeyCode::Enter), Outcome::Copy(1));
    assert_eq!(press(&mut app, KeyCode::Esc), Outcome::Quit);
    assert_eq!(ctrl(&mut app, 'c'), Outcome::Quit);
    type_text(&mut app, "nothing matches this");
    assert_eq!(press(&mut app, KeyCode::Enter), Outcome::Continue);
}

#[test]
fn the_search_can_be_edited() {
    let mut app = app(&["x"]);
    type_text(&mut app, "foo bar");
    ctrl(&mut app, 'w');
    assert_eq!(app.query(), "foo ");
    press(&mut app, KeyCode::Backspace);
    assert_eq!(app.query(), "foo");
    ctrl(&mut app, 'u');
    assert_eq!(app.query(), "");
    press(&mut app, KeyCode::Backspace);
    assert_eq!(matched(&app), ["x"]);
}

#[test]
fn ages_are_short() {
    assert_eq!(age(NOW, NOW), "now");
    assert_eq!(age(NOW, NOW - 59), "now");
    assert_eq!(age(NOW, NOW - 60), "1m");
    assert_eq!(age(NOW, NOW - 2 * 3600), "2h");
    assert_eq!(age(NOW, NOW - 3 * 86400), "3d");
    assert_eq!(age(NOW + 400 * 86400, NOW), "1y");
    assert_eq!(age(NOW, NOW + 10), "now");
}

#[test]
fn find_ignores_case_across_multibyte_text() {
    let text = "Grüße, WORLD";
    let found = find(text, "world", false).unwrap();
    assert_eq!(&text[found], "WORLD");
    assert_eq!(find("ÄBC", "äb", false), Some(0..3));
    assert_eq!(find("abc", "B", true), None);
    assert_eq!(find("abc", "", false), None);
}

#[test]
fn find_counts_bytes_not_chars() {
    assert_eq!(find("aÄb", "äb", false), Some(1..4));
    assert_eq!(find("日本語のテキスト", "テキ", true), Some(12..18));
    assert_eq!(find("abcabc", "ca", true), Some(2..4));
    assert_eq!(find("ab", "abc", false), None);
}

#[test]
fn ages_count_whole_units() {
    assert_eq!(age(NOW, NOW - 119), "1m");
    assert_eq!(age(NOW, NOW - 3599), "59m");
    assert_eq!(age(NOW, NOW - 3600), "1h");
    assert_eq!(age(NOW, NOW - 86399), "23h");
    assert_eq!(age(NOW, NOW - 86400), "1d");
    assert_eq!(age(NOW + 365 * 86400 - 1, NOW), "364d");
    assert_eq!(age(u64::MAX, 0), "584942417355y");
}

#[test]
fn the_list_shows_the_first_line_that_isnt_blank() {
    let chars: Vec<char> = "\n  \n\tcode\nmore".chars().collect();
    assert_eq!(first_nonblank_line(&chars), 2);
    let blank: Vec<char> = " \n \n".chars().collect();
    assert_eq!(first_nonblank_line(&blank), 0);
    assert_eq!(shown_line("\n  \n\tcode  \nmore", 2), "code");
    assert_eq!(shown_line("one\r\ntwo", 0), "one");
    assert_eq!(shown_line("one\ntwo", 5), "");
}

#[test]
fn lines_are_counted_as_str_lines_counts_them() {
    assert_eq!(line_count(""), 0);
    assert_eq!(line_count("a"), 1);
    assert_eq!(line_count("a\n"), 1);
    assert_eq!(line_count("a\nb"), 2);
    assert_eq!(line_count("fn main() {\n    println!(\"hi\");\n}"), 3);
}

#[test]
fn escape_sequences_are_drawn_harmlessly() {
    assert_eq!(displayable("\u{1b}[2Jgotcha"), "\u{fffd}[2Jgotcha");
    assert_eq!(displayable("a\tb"), "a    b");
    assert_eq!(displayable("plain é"), "plain é");
}

#[test]
fn the_preview_scrolls_by_lines_and_pages_within_its_length() {
    let mut app = app(&["text"]);
    app.show_preview(10, Some(25));
    app.on_key(key(KeyCode::Down, false, true));
    assert_eq!(app.scroll(), 1);
    press(&mut app, KeyCode::PageDown);
    assert_eq!(app.scroll(), 11);
    press(&mut app, KeyCode::PageDown);
    assert_eq!(app.scroll(), 15);
    press(&mut app, KeyCode::PageUp);
    press(&mut app, KeyCode::PageUp);
    assert_eq!(app.scroll(), 0);
    app.on_key(key(KeyCode::Up, false, true));
    assert_eq!(app.scroll(), 0);
}

#[test]
fn a_shorter_preview_pulls_the_scroll_back() {
    let mut app = app(&["text"]);
    app.show_preview(10, Some(40));
    press(&mut app, KeyCode::PageDown);
    press(&mut app, KeyCode::PageDown);
    assert_eq!(app.scroll(), 20);
    app.show_preview(10, Some(25));
    assert_eq!(app.scroll(), 15);
}

#[test]
fn ctrl_w_deletes_the_last_word_and_the_space_after_it() {
    let mut app = app(&["x"]);
    type_text(&mut app, "foo bar  ");
    ctrl(&mut app, 'w');
    assert_eq!(app.query(), "foo ");
    ctrl(&mut app, 'w');
    assert_eq!(app.query(), "");
}

#[test]
fn other_control_keys_are_ignored_and_altgr_types() {
    let mut app = app(&["x"]);
    assert_eq!(ctrl(&mut app, 'z'), Outcome::Continue);
    assert_eq!(app.query(), "");
    app.on_key(Key {
        code: KeyCode::Char('@'),
        ctrl: true,
        shift: false,
        alt: true,
    });
    assert_eq!(app.query(), "@");
    assert_eq!(press(&mut app, KeyCode::Other), Outcome::Continue);
    assert_eq!(app.query(), "@");
}

#[test]
fn the_picked_entry_can_be_taken_out() {
    let mut app = app(&["old", "new"]);
    press(&mut app, KeyCode::Down);
    let Outcome::Copy(index) = press(&mut app, KeyCode::Enter) else {
        panic!("Enter copies the selection");
    };
    let entry = app.pick(index).expect("the index is in range");
    assert_eq!(entry.text, "old");
}

#[test]
fn searching_lowercase_finds_uppercase_and_the_line_it_is_on() {
    let mut app = app(&["first\nSECOND"]);
    type_text(&mut app, "second");
    assert_eq!(app.matches(), &[Match { entry: 0, line: 1 }]);
    type_text(&mut app, "X");
    assert!(app.matches().is_empty());
    assert_eq!(app.selected(), None);
    assert_eq!(app.selected_index(), None);
}

#[test]
fn the_preview_counts_its_lines() {
    assert_eq!(lines_title(1), "1 line");
    assert_eq!(lines_title(0), "0 lines");
    assert_eq!(lines_title(3), "3 lines");
    assert_eq!(lines_title(120), "120 lines");
}
