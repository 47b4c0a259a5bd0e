use clipboard_cli::completions::{Shell, SHELLS};

#[test]
fn shells_are_found_by_name() {
    assert_eq!(Shell::from_name("bash"), Some(Shell::Bash));
    assert_eq!(Shell::from_name("zsh"), Some(Shell::Zsh));
    assert_eq!(Shell::from_name("fish"), Some(Shell::Fish));
    assert_eq!(Shell::from_name("tcsh"), None);
    assert_eq!(Shell::from_name("Bash"), None);
    assert_eq!(Shell::from_name(""), None);
    assert_eq!(SHELLS, "bash, zsh or fish");
}

#[test]
fn each_shell_has_its_own_script() {
    assert!(Shell::Bash.script().contains("complete -o filenames -F _cb cb"));
    assert!(Shell::Zsh.script().starts_with("#compdef cb"));
    assert!(Shell::Fish.script().contains("complete -c cb"));
    assert_ne!(Shell::Bash.script(), Shell::Zsh.script());
    assert_ne!(Shell::Zsh.script(), Shell::Fish.script());
}
