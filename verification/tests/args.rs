use clipboard_cli::args::{parse_args, strip_trailing_newline, Action, Arg};
use clipboard_cli::completions::Shell;

fn parse(args: &[&str], stdin_is_terminal: bool) -> Result<Action, String> {
    let args: Vec<Arg> = args.iter().map(|arg| Arg::new(arg)).collect();
    parse_args(&args, stdin_is_terminal)
}

#[test]
fn no_args_at_a_terminal_prints() {
    assert_eq!(parse(&[], true), Ok(Action::Print));
}

#[test]
fn no_args_with_piped_input_copies_stdin() {
    assert_eq!(parse(&[], false), Ok(Action::CopyStdin));
}

#[test]
fn file_argument_wins_over_piped_input() {
    let expected = Ok(Action::CopyFile("notes.txt".into()));
    assert_eq!(parse(&["notes.txt"], true), expected);
    assert_eq!(parse(&["notes.txt"], false), expected);
}

#[test]
fn help_and_version_flags() {
    for flag in ["-h", "--help"] {
        assert_eq!(parse(&[flag], true), Ok(Action::Help));
    }
    for flag in ["-V", "--version"] {
        assert_eq!(parse(&[flag], true), Ok(Action::Version));
    }
}

#[test]
fn peek_is_a_command() {
    assert_eq!(parse(&["peek"], true), Ok(Action::Peek));
    assert_eq!(parse(&["peek"], false), Ok(Action::Peek));
    assert_eq!(
        parse(&["./peek"], true),
        Ok(Action::CopyFile("./peek".into()))
    );
}

#[test]
fn completions_takes_a_shell() {
    for (name, shell) in [
        ("bash", Shell::Bash),
        ("zsh", Shell::Zsh),
        ("fish", Shell::Fish),
    ] {
        assert_eq!(
            parse(&["completions", name], true),
            Ok(Action::Completions(shell))
        );
    }
    assert_eq!(
        parse(&["./completions"], true),
        Ok(Action::CopyFile("./completions".into()))
    );
}

#[test]
fn completions_needs_one_known_shell() {
    assert_eq!(
        parse(&["completions"], true),
        Err("completions needs a shell: bash, zsh or fish".into())
    );
    assert_eq!(
        parse(&["completions", "tcsh"], true),
        Err("unknown shell 'tcsh'; expected bash, zsh or fish".into())
    );
    assert_eq!(
        parse(&["completions", "zsh", "bash"], true),
        Err("unexpected argument 'bash'".into())
    );
}

#[test]
fn watch_takes_one_option() {
    assert_eq!(parse(&["watch"], true), Ok(Action::Watch));
    assert_eq!(
        parse(&["watch", "--install"], true),
        Ok(Action::WatchInstall)
    );
    assert_eq!(
        parse(&["watch", "--uninstall"], false),
        Ok(Action::WatchUninstall)
    );
    assert_eq!(
        parse(&["watch", "--bogus"], true),
        Err("unknown option '--bogus'".into())
    );
    assert_eq!(
        parse(&["watch", "now"], true),
        Err("unexpected argument 'now'".into())
    );
    assert_eq!(
        parse(&["watch", "--install", "x"], true),
        Err("unexpected argument 'x'".into())
    );
    assert_eq!(
        parse(&["./watch"], true),
        Ok(Action::CopyFile("./watch".into()))
    );
}

#[test]
fn only_watch_takes_an_option() {
    assert_eq!(
        parse(&["peek", "--install"], true),
        Err("unexpected argument '--install'".into())
    );
}

#[test]
fn unknown_option_is_rejected() {
    assert_eq!(
        parse(&["--bogus"], true),
        Err("unknown option '--bogus'".into())
    );
}

#[test]
fn extra_arguments_are_rejected() {
    assert_eq!(
        parse(&["a", "b"], true),
        Err("unexpected argument 'b'".into())
    );
}

#[test]
fn strips_exactly_one_trailing_newline() {
    assert_eq!(strip_trailing_newline("hello\n"), "hello");
    assert_eq!(strip_trailing_newline("hello\r\n"), "hello");
    assert_eq!(strip_trailing_newline("hello\n\n"), "hello\n");
    assert_eq!(strip_trailing_newline("hello"), "hello");
    assert_eq!(strip_trailing_newline(""), "");
}

#[test]
fn keeps_leading_and_inner_whitespace() {
    assert_eq!(
        strip_trailing_newline("    indented\n  code \n"),
        "    indented\n  code "
    );
}

#[test]
fn a_lone_dash_is_a_file() {
    assert_eq!(parse(&["-"], true), Ok(Action::CopyFile("-".into())));
}

#[test]
fn an_argument_that_isnt_unicode_is_a_file() {
    let args = vec![Arg {
        text: "-\u{fffd}".to_owned(),
        is_unicode: false,
    }];
    assert_eq!(
        parse_args(&args, true),
        Ok(Action::CopyFile("-\u{fffd}".into()))
    );
}

#[test]
fn strips_only_line_endings_after_multibyte_text() {
    assert_eq!(strip_trailing_newline("grüße\r\n"), "grüße");
    assert_eq!(strip_trailing_newline("\n"), "");
    assert_eq!(strip_trailing_newline("\r\n"), "");
    assert_eq!(strip_trailing_newline("a\r"), "a\r");
    assert_eq!(strip_trailing_newline("日本\n"), "日本");
}

#[test]
fn copying_and_printing_a_file_reproduces_it() {
    for text in ["hello\n", "two\nlines\n", "\n", "  indented\n"] {
        assert_eq!(format!("{}\n", strip_trailing_newline(text)), text);
    }
}

#[test]
fn with_arguments_stdin_does_not_matter() {
    for args in [&["notes.txt"][..], &["peek"], &["watch", "--bogus"], &["a", "b"]] {
        assert_eq!(parse(args, true), parse(args, false));
    }
}
