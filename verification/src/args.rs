//! What `cb` is asked to do, decided from its arguments, and how copied text
//! loses the one line ending that nobody means to paste.

use vstd::prelude::*;
use vstd::utf8::*;

use crate::completions::{shell_named, Shell, SHELLS};
use crate::encoding::{lemma_decode_encode, lemma_encode_concat, lemma_first_byte_ascii, lemma_last_byte_ascii, lemma_scalar_bytes};
use crate::text::same_text;

verus! {

/// One command line argument. `text` is the argument, or where it is not valid
/// Unicode, its lossy form, in which case `is_unicode` is false.
#[derive(Debug, Clone)]
pub struct Arg {
    pub text: String,
    pub is_unicode: bool,
}

impl Arg {
    /// An argument that is valid Unicode.
    pub fn new(text: &str) -> (r: Self)
        ensures
            r.text@ == text@,
            r.is_unicode,
    {
        Arg { text: text.to_owned(), is_unicode: true }
    }
}

/// The argument as a string, if it is valid Unicode.
pub open spec fn unicode(arg: Arg) -> Option<Seq<char>> {
    if arg.is_unicode {
        Some(arg.text@)
    } else {
        None
    }
}

#[derive(Debug, PartialEq, Eq)]
pub enum Action {
    Help,
    Version,
    Print,
    /// Copy the file named by the first argument.
    CopyFile(String),
    CopyStdin,
    Peek,
    Watch,
    WatchInstall,
    WatchUninstall,
    Completions(Shell),
}

/// What an action holds.
pub enum ActionView {
    Help,
    Version,
    Print,
    CopyFile(Seq<char>),
    CopyStdin,
    Peek,
    Watch,
    WatchInstall,
    WatchUninstall,
    Completions(Shell),
}

impl View for Action {
    type V = ActionView;

    open spec fn view(&self) -> ActionView {
        match self {
            Action::Help => ActionView::Help,
            Action::Version => ActionView::Version,
            Action::Print => ActionView::Print,
            Action::CopyFile(path) => ActionView::CopyFile(path@),
            Action::CopyStdin => ActionView::CopyStdin,
            Action::Peek => ActionView::Peek,
            Action::Watch => ActionView::Watch,
            Action::WatchInstall => ActionView::WatchInstall,
            Action::WatchUninstall => ActionView::WatchUninstall,
            Action::Completions(shell) => ActionView::Completions(*shell),
        }
    }
}

pub open spec fn unknown_option(flag: Seq<char>) -> Seq<char> {
    "unknown option '"@ + flag + "'"@
}

pub open spec fn unexpected_argument(arg: Seq<char>) -> Seq<char> {
    "unexpected argument '"@ + arg + "'"@
}

pub open spec fn needs_shell() -> Seq<char> {
    "completions needs a shell: "@ + SHELLS@
}

pub open spec fn unknown_shell(name: Seq<char>) -> Seq<char> {
    "unknown shell '"@ + name + "'; expected "@ + SHELLS@
}

/// Whether `s` begins with a dash.
pub open spec fn starts_with_dash(s: Seq<char>) -> bool {
    s.len() > 0 && s[0] == '-'
}

/// How the first arguments read: an action and how many arguments it took,
/// or an error.
pub enum Reading {
    Action(ActionView, nat),
    Error(Seq<char>),
}

/// How the first of `args` reads, with what follows it.
pub open spec fn read_first(args: Seq<Arg>) -> Reading
    recommends
        args.len() > 0,
{
    let arg = args[0];
    match unicode(arg) {
        Some(s) => if s == "-h"@ || s == "--help"@ {
            Reading::Action(ActionView::Help, 1)
        } else if s == "-V"@ || s == "--version"@ {
            Reading::Action(ActionView::Version, 1)
        } else if s == "peek"@ {
            Reading::Action(ActionView::Peek, 1)
        } else if s == "watch"@ {
            if args.len() < 2 {
                Reading::Action(ActionView::Watch, 1)
            } else {
                match unicode(args[1]) {
                    Some(o) => if o == "--install"@ {
                        Reading::Action(ActionView::WatchInstall, 2)
                    } else if o == "--uninstall"@ {
                        Reading::Action(ActionView::WatchUninstall, 2)
                    } else if starts_with_dash(o) {
                        Reading::Error(unknown_option(o))
                    } else {
                        Reading::Error(unexpected_argument(args[1].text@))
                    },
                    None => Reading::Error(unexpected_argument(args[1].text@)),
                }
            }
        } else if s == "completions"@ {
            if args.len() < 2 {
                Reading::Error(needs_shell())
            } else {
                match unicode(args[1]) {
                    Some(name) => match shell_named(name) {
                        Some(shell) => Reading::Action(ActionView::Completions(shell), 2),
                        None => Reading::Error(unknown_shell(args[1].text@)),
                    },
                    None => Reading::Error(unknown_shell(args[1].text@)),
                }
            }
        } else if encode_utf8(s).len() > 1 && starts_with_dash(s) {
            Reading::Error(unknown_option(s))
        } else {
            Reading::Action(ActionView::CopyFile(arg.text@), 1)
        },
        None => Reading::Action(ActionView::CopyFile(arg.text@), 1),
    }
}

/// What the arguments ask for. An explicit file always wins over stdin;
/// `peek`, `watch` and `completions` are commands, so files by those names are
/// copied as `cb ./peek` and so on; only `watch` and `completions` take a
/// second argument, and nothing takes a third.
pub open spec fn parsed(args: Seq<Arg>, stdin_is_terminal: bool) -> Result<ActionView, Seq<char>> {
    if args.len() == 0 {
        if stdin_is_terminal {
            Ok(ActionView::Print)
        } else {
            Ok(ActionView::CopyStdin)
        }
    } else {
        match read_first(args) {
            Reading::Error(message) => Err(message),
            Reading::Action(action, taken) => if args.len() > taken {
                Err(unexpected_argument(args[taken as int].text@))
            } else {
                Ok(action)
            },
        }
    }
}

/// The view of a parse result.
pub open spec fn result_view(r: Result<Action, String>) -> Result<ActionView, Seq<char>> {
    match r {
        Ok(action) => Ok(action@),
        Err(message) => Err(message@),
    }
}

/// Whether `s` begins with a dash.
fn begins_with_dash(s: &str) -> (r: bool)
    ensures
        r == starts_with_dash(s@),
{
    let bytes = s.as_bytes();
    if bytes.len() == 0 {
        return false;
    }
    proof {
        if s@.len() > 0 {
            lemma_first_byte_ascii(s@, '-');
        } else {
            assert(encode_utf8(s@) =~= seq![]);
        }
    }
    bytes[0] == 0x2d
}

/// `"<before>'<quoted>'<after>"`.
fn quoted(before: &str, inner: &str, after: &str) -> (r: String)
    ensures
        r@ == before@ + "'"@ + inner@ + "'"@ + after@,
{
    let mut message = before.to_owned();
    message.append("'");
    message.append(inner);
    message.append("'");
    message.append(after);
    message
}

fn unknown_option_message(flag: &str) -> (r: String)
    ensures
        r@ == unknown_option(flag@),
{
    let r = quoted("unknown option ", flag, "");
    proof {
        reveal_strlit("unknown option ");
        reveal_strlit("unknown option '");
        reveal_strlit("'");
        reveal_strlit("");
        assert("unknown option "@ + "'"@ =~= "unknown option '"@);
        assert(r@ =~= unknown_option(flag@));
    }
    r
}

fn unexpected_argument_message(arg: &str) -> (r: String)
    ensures
        r@ == unexpected_argument(arg@),
{
    let r = quoted("unexpected argument ", arg, "");
    proof {
        reveal_strlit("unexpected argument ");
        reveal_strlit("unexpected argument '");
        reveal_strlit("'");
        reveal_strlit("");
        assert("unexpected argument "@ + "'"@ =~= "unexpected argument '"@);
        assert(r@ =~= unexpected_argument(arg@));
    }
    r
}

fn unknown_shell_message(name: &str) -> (r: String)
    ensures
        r@ == unknown_shell(name@),
{
    let mut r = quoted("unknown shell ", name, "; expected ");
    r.append(SHELLS);
    proof {
        reveal_strlit("unknown shell ");
        reveal_strlit("unknown shell '");
        reveal_strlit("'");
        reveal_strlit("; expected ");
        reveal_strlit("'; expected ");
        assert("unknown shell "@ + "'"@ =~= "unknown shell '"@);
        assert("'"@ + "; expected "@ =~= "'; expected "@);
        assert(r@ =~= unknown_shell(name@));
    }
    r
}

/// The error for arguments left over after `taken` of them.
fn check_rest(args: &Vec<Arg>, taken: usize, action: Action) -> (r: Result<Action, String>)
    requires
        taken <= args@.len(),
    ensures
        result_view(r) == (if args@.len() > taken {
            Err(unexpected_argument(args@[taken as int].text@))
        } else {
            Ok(action@)
        }),
{
    if args.len() > taken {
        Err(unexpected_argument_message(args[taken].text.as_str()))
    } else {
        Ok(action)
    }
}

/// Decides what to do from the arguments (excluding the program name).
///
/// An explicit file always wins over stdin, so `cb notes.txt` behaves the same
/// in a script or IDE task, where stdin is not a terminal, as it does at a prompt.
/// `peek`, `watch` and `completions` are commands, so files by those names are
/// copied as `cb ./peek`, `cb ./watch` and `cb ./completions`.
pub fn parse_args(args: &Vec<Arg>, stdin_is_terminal: bool) -> (r: Result<Action, String>)
    ensures
        result_view(r) == parsed(args@, stdin_is_terminal),
{
    if args.len() == 0 {
        return if stdin_is_terminal {
            Ok(Action::Print)
        } else {
            Ok(Action::CopyStdin)
        };
    }
    let arg = &args[0];
    if !arg.is_unicode {
        return check_rest(args, 1, Action::CopyFile(arg.text.clone()));
    }
    let s = arg.text.as_str();
    proof {
        reveal_strlit("-h");
        reveal_strlit("--help");
        reveal_strlit("-V");
        reveal_strlit("--version");
        reveal_strlit("peek");
        reveal_strlit("watch");
        reveal_strlit("completions");
    }
    if same_text(s, "-h") || same_text(s, "--help") {
        check_rest(args, 1, Action::Help)
    } else if same_text(s, "-V") || same_text(s, "--version") {
        check_rest(args, 1, Action::Version)
    } else if same_text(s, "peek") {
        check_rest(args, 1, Action::Peek)
    } else if same_text(s, "watch") {
        if args.len() < 2 {
            return Ok(Action::Watch);
        }
        let option = &args[1];
        let o = option.text.as_str();
        if !option.is_unicode {
            return Err(unexpected_argument_message(o));
        }
        if same_text(o, "--install") {
            check_rest(args, 2, Action::WatchInstall)
        } else if same_text(o, "--uninstall") {
            check_rest(args, 2, Action::WatchUninstall)
        } else if begins_with_dash(o) {
            Err(unknown_option_message(o))
        } else {
            Err(unexpected_argument_message(o))
        }
    } else if same_text(s, "completions") {
        if args.len() < 2 {
            let mut message = "completions needs a shell: ".to_owned();
            message.append(SHELLS);
            return Err(message);
        }
        let name = &args[1];
        let shell = if name.is_unicode {
            Shell::from_name(name.text.as_str())
        } else {
            None
        };
        match shell {
            Some(shell) => check_rest(args, 2, Action::Completions(shell)),
            None => Err(unknown_shell_message(name.text.as_str())),
        }
    } else if s.as_bytes().len() > 1 && begins_with_dash(s) {
        Err(unknown_option_message(s))
    } else {
        check_rest(args, 1, Action::CopyFile(arg.text.clone()))
    }
}

/// Copying drops one trailing line feed and printing adds one back, so a
/// text that ends in a single line feed, not `\r\n`, prints as it was copied.
pub proof fn lemma_print_restores_copy(text: Seq<char>)
    requires
        text.len() > 0,
        text.last() == '\n',
        !(text.len() >= 2 && text[text.len() - 2] == '\r'),
    ensures
        without_trailing_newline(text).push('\n') == text,
{
    assert(text.drop_last().push('\n') =~= text);
}

/// Only a line ending goes: what is kept is the text up to one, and all of
/// it where there is none.
pub proof fn lemma_strip_keeps_the_rest(text: Seq<char>)
    ensures
        ({
            let kept = without_trailing_newline(text);
            let rest = text.skip(kept.len() as int);
            &&& kept.len() <= text.len()
            &&& kept == text.take(kept.len() as int)
            &&& (rest == Seq::<char>::empty() || rest == seq!['\n'] || rest == seq!['\r', '\n'])
        }),
{
    let kept = without_trailing_newline(text);
    let rest = text.skip(kept.len() as int);
    assert(kept =~= text.take(kept.len() as int));
    if kept.len() == text.len() {
        assert(rest =~= Seq::<char>::empty());
    } else if kept.len() + 1 == text.len() {
        assert(rest =~= seq!['\n']);
    } else {
        assert(rest =~= seq!['\r', '\n']);
    }
}

/// An explicit file always wins over stdin: whether stdin is a terminal
/// matters only when there are no arguments.
pub proof fn lemma_arguments_win_over_stdin(args: Seq<Arg>)
    requires
        args.len() > 0,
    ensures
        parsed(args, true) == parsed(args, false),
{
}

/// The words that are commands.
pub open spec fn is_command(word: Seq<char>) -> bool {
    word == "peek"@ || word == "watch"@ || word == "completions"@
}

/// A single argument that is neither a command nor begins with a dash, such
/// as `./peek`, names a file to copy.
pub proof fn lemma_other_words_are_files(arg: Arg, stdin_is_terminal: bool)
    requires
        unicode(arg) matches Some(word) ==> !is_command(word) && !starts_with_dash(word),
    ensures
        result_of(parsed(seq![arg], stdin_is_terminal)) == Some(arg.text@),
{
    reveal_strlit("-h");
    reveal_strlit("--help");
    reveal_strlit("-V");
    reveal_strlit("--version");
    if let Some(word) = unicode(arg) {
        if word.len() > 0 {
            assert(word != "-h"@ && word != "--help"@ && word != "-V"@ && word != "--version"@) by {
                assert("-h"@[0] == '-' && "--help"@[0] == '-' && "-V"@[0] == '-' && "--version"@[0] == '-');
            }
        } else {
            assert(word.len() != "-h"@.len());
            assert(word.len() != "--help"@.len());
            assert(word.len() != "-V"@.len());
            assert(word.len() != "--version"@.len());
        }
    }
}

/// The file a parse asks to copy, if it asks to copy one.
pub open spec fn result_of(r: Result<ActionView, Seq<char>>) -> Option<Seq<char>> {
    match r {
        Ok(ActionView::CopyFile(path)) => Some(path),
        _ => None,
    }
}

/// `text` with one trailing line ending, `\r\n` or `\n`, dropped.
pub open spec fn without_trailing_newline(text: Seq<char>) -> Seq<char> {
    if text.len() >= 2 && text[text.len() - 2] == '\r' && text.last() == '\n' {
        text.subrange(0, text.len() - 2)
    } else if text.len() >= 1 && text.last() == '\n' {
        text.drop_last()
    } else {
        text
    }
}

/// The part of `text` before byte `end`, where the byte at `end` is ASCII.
fn before_ascii_byte(text: &str, end: usize) -> (r: &str)
    requires
        end < encode_utf8(text@).len(),
        encode_utf8(text@)[end as int] < 0x80,
    ensures
        encode_utf8(r@) == encode_utf8(text@).subrange(0, end as int),
{
    proof {
        encode_utf8_valid_utf8(text@);
        is_char_boundary_iff_not_is_continuation_byte(encode_utf8(text@), end as int);
    }
    text.split_at(end).0
}

/// Drops one trailing line ending.
///
/// Commands like `echo` end their output with a newline nobody means to paste.
/// Printing adds it back, so copying a file and printing it reproduces it.
/// Everything else, including leading whitespace, is part of the content.
pub fn strip_trailing_newline(text: &str) -> (r: &str)
    ensures
        r@ == without_trailing_newline(text@),
{
    let bytes = text.as_bytes();
    let n = bytes.len();
    if n == 0 {
        proof {
            if text@.len() > 0 {
                lemma_scalar_bytes(text@[0]);
                lemma_encode_concat(seq![text@[0]], text@.drop_first());
            }
        }
        return text;
    }
    let ghost t = text@;
    proof {
        if t.len() == 0 {
            assert(encode_utf8(t) =~= seq![]);
        }
        lemma_last_byte_ascii(t, '\n');
        if t.len() >= 2 && t.last() == '\n' {
            lemma_last_byte_ascii(t.drop_last(), '\r');
            assert(t.drop_last().last() == t[t.len() - 2]);
        }
        if t.last() == '\n' {
            lemma_scalar_bytes(t.last());
            if t.len() == 1 {
                assert(t.drop_last() =~= Seq::<char>::empty());
                assert(encode_utf8(t.drop_last()) =~= seq![]);
            }
        }
    }
    if n >= 2 && bytes[n - 1] == 0x0a && bytes[n - 2] == 0x0d {
        let r = before_ascii_byte(text, n - 2);
        proof {
            assert(t.len() >= 2);
            assert(encode_utf8(t.drop_last().drop_last()) =~= encode_utf8(t).subrange(0, n - 2));
            lemma_decode_encode(r@);
            lemma_decode_encode(t.drop_last().drop_last());
            assert(t.drop_last().drop_last() =~= t.subrange(0, t.len() - 2));
        }
        r
    } else if bytes[n - 1] == 0x0a {
        let r = before_ascii_byte(text, n - 1);
        proof {
            assert(encode_utf8(t.drop_last()) =~= encode_utf8(t).subrange(0, n - 1));
            lemma_decode_encode(r@);
            lemma_decode_encode(t.drop_last());
        }
        r
    } else {
        text
    }
}

} // verus!
