//! Tab completion scripts, printed by `cb completions SHELL`.

use vstd::prelude::*;

use crate::text::same_text;

verus! {

/// The shells there are scripts for, as named in errors.
pub const SHELLS: &'static str = "bash, zsh or fish";

/// The bash script: `_cb` fills `COMPREPLY` for the word under the cursor.
pub const BASH_SCRIPT: &'static str = r#"# Tab completion for cb in bash.
_cb() {
    local cur="${COMP_WORDS[COMP_CWORD]}"
    COMPREPLY=()
    if [[ $COMP_CWORD -eq 1 ]]; then
        if [[ $cur == -* ]]; then
            COMPREPLY=($(compgen -W "-h --help -V --version" -- "$cur"))
        else
            COMPREPLY=($(compgen -W "peek watch completions" -- "$cur") $(compgen -f -- "$cur"))
        fi
    elif [[ $COMP_CWORD -eq 2 ]]; then
        case "${COMP_WORDS[1]}" in
            completions)
                COMPREPLY=($(compgen -W "bash zsh fish" -- "$cur"))
                ;;
            watch)
                COMPREPLY=($(compgen -W "--install --uninstall" -- "$cur"))
                ;;
        esac
    fi
}
complete -o filenames -F _cb cb
"#;

/// The zsh script, to be sourced after `compinit` or installed as `_cb`.
pub const ZSH_SCRIPT: &'static str = r#"#compdef cb
# Tab completion for cb in zsh.

_cb() {
    if (( CURRENT == 2 )); then
        if [[ $PREFIX == -* ]]; then
            _values 'option' '-h[print help]' '--help[print help]' '-V[print version]' '--version[print version]'
        else
            _alternative \
                'commands:command:((peek\:"search clipboard history and copy an entry again" watch\:"record everything copied, in any program" completions\:"print tab completion for a shell"))' \
                'files:file:_files'
        fi
    elif (( CURRENT == 3 )); then
        case $words[2] in
            completions)
                _values 'shell' bash zsh fish
                ;;
            watch)
                _values 'option' '--install[also start watching whenever you log in]' '--uninstall[stop watching, now and at login]'
                ;;
        esac
    fi
}

if [[ $zsh_eval_context[-1] == loadautofunc ]]; then
    _cb "$@"
else
    compdef _cb cb
fi
"#;

/// The fish script, to be saved where fish looks for completions.
pub const FISH_SCRIPT: &'static str = r#"# Tab completion for cb in fish.
complete -c cb -f
complete -c cb -n __fish_use_subcommand -F
complete -c cb -n __fish_use_subcommand -a peek -d 'Search clipboard history and copy an entry again'
complete -c cb -n __fish_use_subcommand -a watch -d 'Record everything copied, in any program'
complete -c cb -n __fish_use_subcommand -a completions -d 'Print tab completion for bash, zsh or fish'
complete -c cb -n __fish_use_subcommand -s h -l help -d 'Print help'
complete -c cb -n __fish_use_subcommand -s V -l version -d 'Print version'
complete -c cb -n '__fish_seen_subcommand_from watch; and test (count (commandline -opc)) -eq 2' -l install -d 'Also start watching whenever you log in'
complete -c cb -n '__fish_seen_subcommand_from watch; and test (count (commandline -opc)) -eq 2' -l uninstall -d 'Stop watching, now and at login'
complete -c cb -n '__fish_seen_subcommand_from completions; and test (count (commandline -opc)) -eq 2' -a 'bash zsh fish'
"#;

#[derive(Debug, Clone, Copy, PartialEq, Eq, Structural)]
pub enum Shell {
    Bash,
    Zsh,
    Fish,
}

/// The shell that `name` names, if there is a script for it.
pub open spec fn shell_named(name: Seq<char>) -> Option<Shell> {
    if name == "bash"@ {
        Some(Shell::Bash)
    } else if name == "zsh"@ {
        Some(Shell::Zsh)
    } else if name == "fish"@ {
        Some(Shell::Fish)
    } else {
        None
    }
}

/// The completion script for a shell.
pub open spec fn script_of(shell: Shell) -> Seq<char> {
    match shell {
        Shell::Bash => BASH_SCRIPT@,
        Shell::Zsh => ZSH_SCRIPT@,
        Shell::Fish => FISH_SCRIPT@,
    }
}

impl Shell {
    pub fn from_name(name: &str) -> (r: Option<Self>)
        ensures
            r == shell_named(name@),
    {
        if same_text(name, "bash") {
            Some(Self::Bash)
        } else if same_text(name, "zsh") {
            Some(Self::Zsh)
        } else if same_text(name, "fish") {
            Some(Self::Fish)
        } else {
            None
        }
    }

    pub fn script(self) -> (r: &'static str)
        ensures
            r@ == script_of(self),
    {
        match self {
            Self::Bash => BASH_SCRIPT,
            Self::Zsh => ZSH_SCRIPT,
            Self::Fish => FISH_SCRIPT,
        }
    }
}

} // verus!
