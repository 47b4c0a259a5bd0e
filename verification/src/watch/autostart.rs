//! What starts `cb watch` at login, the way each platform does it: an XDG
//! autostart entry on Linux and the BSDs, a launchd agent on macOS.

use vstd::prelude::*;

use crate::history::{is_joined, is_plain_name, join_path, lemma_join_keeps_plain, may_be_verbatim, path_join};
use crate::text::{chars_of, string_of};

verus! {

/// The launchd label of the watcher.
pub const LAUNCH_AGENT: &'static str = "com.github.amilajack.cb.watch";

/// What `install` says where starting at login isn't supported.
pub const UNSUPPORTED: &'static str = "starting at login isn't supported here";

/// The desktop entry up to its `Exec` value.
pub const DESKTOP_HEAD: &'static str = "[Desktop Entry]\nType=Application\nName=cb clipboard history\nComment=Records what you copy, for cb peek\nExec=";

/// The desktop entry after its `Exec` value.
pub const DESKTOP_TAIL: &'static str = " watch\nTerminal=false\nNoDisplay=true\nX-GNOME-Autostart-enabled=true\n";

/// The launchd agent up to its label.
pub const AGENT_HEAD: &'static str = r#"<?xml version="1.0" encoding="UTF-8"?>
<!DOCTYPE plist PUBLIC "-//Apple//DTD PLIST 1.0//EN" "http://www.apple.com/DTDs/PropertyList-1.0.dtd">
<plist version="1.0">
<dict>
    <key>Label</key>
    <string>"#;

/// The launchd agent between its label and the program.
pub const AGENT_MIDDLE: &'static str = r#"</string>
    <key>ProgramArguments</key>
    <array>
        <string>"#;

/// The launchd agent after the program.
pub const AGENT_TAIL: &'static str = r#"</string>
        <string>watch</string>
    </array>
    <key>RunAtLoad</key>
    <true/>
    <key>KeepAlive</key>
    <dict>
        <key>SuccessfulExit</key>
        <false/>
    </dict>
    <key>LimitLoadToSessionType</key>
    <string>Aqua</string>
    <key>ProcessType</key>
    <string>Background</string>
</dict>
</plist>
"#;

/// How `c` is written inside a quoted `Exec` argument: `"`, `` ` ``, `$` and
/// `\` behind a backslash, `%` doubled.
pub open spec fn exec_quote_char(c: char) -> Seq<char> {
    if c == '"' || c == '`' || c == '$' || c == '\\' {
        seq!['\\', c]
    } else if c == '%' {
        seq!['%', '%']
    } else {
        seq![c]
    }
}

/// Each char of `s` as `exec_quote_char` writes it.
pub open spec fn exec_quote_chars(s: Seq<char>) -> Seq<char>
    decreases s.len(),
{
    if s.len() == 0 {
        seq![]
    } else {
        exec_quote_chars(s.drop_last()) + exec_quote_char(s.last())
    }
}

/// `s` with every backslash doubled, as any desktop entry value escapes it.
pub open spec fn double_backslashes(s: Seq<char>) -> Seq<char>
    decreases s.len(),
{
    if s.len() == 0 {
        seq![]
    } else {
        double_backslashes(s.drop_last()) + if s.last() == '\\' {
            seq!['\\', '\\']
        } else {
            seq![s.last()]
        }
    }
}

/// An argument quoted for a desktop entry's `Exec` key.
pub open spec fn exec_quoted(arg: Seq<char>) -> Seq<char> {
    double_backslashes(seq!['"'] + exec_quote_chars(arg) + seq!['"'])
}

/// Quotes an argument for a desktop entry's `Exec` key. Quoting escapes a
/// few characters with backslashes, and then, as in any desktop entry
/// value, backslashes are escaped again.
pub fn exec_quote(arg: &str) -> (r: String)
    ensures
        r@ == exec_quoted(arg@),
{
    let chars = chars_of(arg);
    let mut quoted: Vec<char> = Vec::new();
    quoted.push('"');
    let mut i: usize = 0;
    assert(chars@.take(0) =~= Seq::<char>::empty());
    while i < chars.len()
        invariant
            chars@ == arg@,
            i <= chars@.len(),
            quoted@ == seq!['"'] + exec_quote_chars(chars@.take(i as int)),
        decreases chars@.len() - i,
    {
        let c = chars[i];
        assert(chars@.take(i + 1).drop_last() =~= chars@.take(i as int));
        let ghost before = quoted@;
        if c == '"' || c == '`' || c == '$' || c == '\\' {
            quoted.push('\\');
            quoted.push(c);
        } else if c == '%' {
            quoted.push('%');
            quoted.push('%');
        } else {
            quoted.push(c);
        }
        assert(quoted@ =~= before + exec_quote_char(c));
        i = i + 1;
    }
    quoted.push('"');
    assert(chars@.take(chars@.len() as int) =~= chars@);
    assert(quoted@ =~= seq!['"'] + exec_quote_chars(arg@) + seq!['"']);
    let mut doubled: Vec<char> = Vec::new();
    let mut j: usize = 0;
    assert(quoted@.take(0) =~= Seq::<char>::empty());
    while j < quoted.len()
        invariant
            quoted@ == seq!['"'] + exec_quote_chars(arg@) + seq!['"'],
            j <= quoted@.len(),
            doubled@ == double_backslashes(quoted@.take(j as int)),
        decreases quoted@.len() - j,
    {
        let c = quoted[j];
        assert(quoted@.take(j + 1).drop_last() =~= quoted@.take(j as int));
        let ghost before = doubled@;
        if c == '\\' {
            doubled.push('\\');
            doubled.push('\\');
            assert(doubled@ =~= before + seq!['\\', '\\']);
        } else {
            doubled.push(c);
            assert(doubled@ =~= before + seq![c]);
        }
        j = j + 1;
    }
    assert(quoted@.take(quoted@.len() as int) =~= quoted@);
    string_of(doubled.as_slice())
}

/// An XDG autostart entry, which GNOME, KDE, Xfce and most other desktops
/// run at login, for the `cb` at `exe`.
pub fn desktop_entry(exe: &str) -> (r: String)
    ensures
        r@ == DESKTOP_HEAD@ + exec_quoted(exe@) + DESKTOP_TAIL@,
{
    let mut entry = DESKTOP_HEAD.to_owned();
    entry.append(exec_quote(exe).as_str());
    entry.append(DESKTOP_TAIL);
    entry
}

/// How `c` is written in XML text: `&`, `<`, `>` and `"` as entities.
pub open spec fn xml_char(c: char) -> Seq<char> {
    if c == '&' {
        seq!['&', 'a', 'm', 'p', ';']
    } else if c == '<' {
        seq!['&', 'l', 't', ';']
    } else if c == '>' {
        seq!['&', 'g', 't', ';']
    } else if c == '"' {
        seq!['&', 'q', 'u', 'o', 't', ';']
    } else {
        seq![c]
    }
}

/// `s` escaped for XML text.
pub open spec fn xml_escaped(s: Seq<char>) -> Seq<char>
    decreases s.len(),
{
    if s.len() == 0 {
        seq![]
    } else {
        xml_escaped(s.drop_last()) + xml_char(s.last())
    }
}

/// Whether an entity, `&amp;`, `&lt;`, `&gt;` or `&quot;`, begins at
/// position `i` of `t`.
pub open spec fn entity_at(t: Seq<char>, i: int) -> bool {
    ||| (i + 5 <= t.len() && t.subrange(i, i + 5) == seq!['&', 'a', 'm', 'p', ';'])
    ||| (i + 4 <= t.len() && t.subrange(i, i + 4) == seq!['&', 'l', 't', ';'])
    ||| (i + 4 <= t.len() && t.subrange(i, i + 4) == seq!['&', 'g', 't', ';'])
    ||| (i + 6 <= t.len() && t.subrange(i, i + 6) == seq!['&', 'q', 'u', 'o', 't', ';'])
}

/// Escaped text holds no `<`, `>` or `"`, and each `&` in it begins an
/// entity, so a path can't close the string it is written in.
pub proof fn lemma_xml_escaped_is_text(s: Seq<char>)
    ensures
        forall|i: int| 0 <= i < xml_escaped(s).len() ==> {
            let c = #[trigger] xml_escaped(s)[i];
            c != '<' && c != '>' && c != '"'
        },
        forall|i: int| 0 <= i < xml_escaped(s).len() && #[trigger] xml_escaped(s)[i] == '&' ==> entity_at(xml_escaped(s), i),
    decreases s.len(),
{
    if s.len() > 0 {
        lemma_xml_escaped_is_text(s.drop_last());
        let before = xml_escaped(s.drop_last());
        let last = xml_char(s.last());
        let t = xml_escaped(s);
        assert(t == before + last);
        assert forall|i: int| 0 <= i < t.len() implies {
            let c = #[trigger] t[i];
            c != '<' && c != '>' && c != '"'
        } by {
            if i >= before.len() {
                assert(t[i] == last[i - before.len()]);
            } else {
                assert(t[i] == before[i]);
            }
        }
        assert forall|i: int| 0 <= i < t.len() && #[trigger] t[i] == '&' implies entity_at(t, i) by {
            if i >= before.len() {
                assert(t[i] == last[i - before.len()]);
                assert(i == before.len());
                assert(t.subrange(i, t.len() as int) =~= last);
            } else {
                assert(t[i] == before[i]);
                assert(entity_at(before, i));
                assert forall|k: int| 0 <= k && i + k <= before.len() implies #[trigger] t.subrange(i, i + k)
                    == before.subrange(i, i + k) by {
                    assert(t.subrange(i, i + k) =~= before.subrange(i, i + k));
                }
            }
        }
    }
}

/// `t` with the entities `&amp;`, `&lt;`, `&gt;` and `&quot;` decoded, read
/// from left to right.
pub open spec fn xml_decoded(t: Seq<char>) -> Seq<char>
    decreases t.len(),
{
    if t.len() == 0 {
        seq![]
    } else if t.len() >= 5 && t.take(5) == seq!['&', 'a', 'm', 'p', ';'] {
        seq!['&'] + xml_decoded(t.skip(5))
    } else if t.len() >= 4 && t.take(4) == seq!['&', 'l', 't', ';'] {
        seq!['<'] + xml_decoded(t.skip(4))
    } else if t.len() >= 4 && t.take(4) == seq!['&', 'g', 't', ';'] {
        seq!['>'] + xml_decoded(t.skip(4))
    } else if t.len() >= 6 && t.take(6) == seq!['&', 'q', 'u', 'o', 't', ';'] {
        seq!['"'] + xml_decoded(t.skip(6))
    } else {
        seq![t[0]] + xml_decoded(t.skip(1))
    }
}

proof fn lemma_xml_escaped_front(s: Seq<char>)
    requires
        s.len() > 0,
    ensures
        xml_escaped(s) == xml_char(s[0]) + xml_escaped(s.drop_first()),
    decreases s.len(),
{
    if s.len() == 1 {
        assert(s.drop_last() =~= Seq::<char>::empty());
        assert(s.drop_first() =~= Seq::<char>::empty());
        assert(xml_escaped(s.drop_last()) =~= Seq::<char>::empty());
        assert(xml_escaped(s.drop_first()) =~= Seq::<char>::empty());
        assert(s.last() == s[0]);
        assert(xml_escaped(s) =~= xml_char(s[0]) + xml_escaped(s.drop_first()));
    } else {
        lemma_xml_escaped_front(s.drop_last());
        assert(s.drop_last().drop_first() =~= s.drop_first().drop_last());
        assert(s.drop_first().last() == s.last());
        assert(xml_escaped(s) =~= xml_char(s[0]) + xml_escaped(s.drop_first()));
    }
}

proof fn lemma_xml_char_decodes(c: char, u: Seq<char>)
    ensures
        xml_decoded(xml_char(c) + u) == seq![c] + xml_decoded(u),
{
    let t = xml_char(c) + u;
    let e = xml_char(c);
    if c == '&' {
        assert(t.take(5) =~= e);
        assert(t.skip(5) =~= u);
    } else if c == '<' {
        assert(t.take(4) =~= e);
        assert(t.skip(4) =~= u);
        assert(t[1] == 'l');
        if t.len() >= 5 {
            assert(t.take(5)[1] != seq!['&', 'a', 'm', 'p', ';'][1]);
        }
    } else if c == '>' {
        assert(t.take(4) =~= e);
        assert(t.skip(4) =~= u);
        assert(t[1] == 'g');
        if t.len() >= 5 {
            assert(t.take(5)[1] != seq!['&', 'a', 'm', 'p', ';'][1]);
        }
        assert(t.take(4)[1] != seq!['&', 'l', 't', ';'][1]);
    } else if c == '"' {
        assert(t.take(6) =~= e);
        assert(t.skip(6) =~= u);
        assert(t[1] == 'q');
        assert(t.take(5)[1] != seq!['&', 'a', 'm', 'p', ';'][1]);
        assert(t.take(4)[1] != seq!['&', 'l', 't', ';'][1]);
        assert(t.take(4)[1] != seq!['&', 'g', 't', ';'][1]);
    } else {
        assert(t[0] == c);
        if t.len() >= 5 {
            assert(t.take(5)[0] != seq!['&', 'a', 'm', 'p', ';'][0]);
        }
        if t.len() >= 4 {
            assert(t.take(4)[0] != seq!['&', 'l', 't', ';'][0]);
            assert(t.take(4)[0] != seq!['&', 'g', 't', ';'][0]);
        }
        if t.len() >= 6 {
            assert(t.take(6)[0] != seq!['&', 'q', 'u', 'o', 't', ';'][0]);
        }
        assert(t.skip(1) =~= u);
    }
}

/// Decoding the entities of escaped text, from left to right, gives the
/// text back.
pub proof fn lemma_xml_decodes_back(s: Seq<char>)
    ensures
        xml_decoded(xml_escaped(s)) == s,
    decreases s.len(),
{
    if s.len() == 0 {
        assert(xml_escaped(s) =~= Seq::<char>::empty());
    } else {
        lemma_xml_escaped_front(s);
        lemma_xml_decodes_back(s.drop_first());
        lemma_xml_char_decodes(s[0], xml_escaped(s.drop_first()));
        assert(seq![s[0]] + s.drop_first() =~= s);
    }
}

/// `text` escaped for XML: each `&`, `<`, `>` and `"` as an entity.
pub fn xml_escape(text: &str) -> (r: String)
    ensures
        r@ == xml_escaped(text@),
{
    let chars = chars_of(text);
    let mut out: Vec<char> = Vec::new();
    let mut i: usize = 0;
    assert(chars@.take(0) =~= Seq::<char>::empty());
    while i < chars.len()
        invariant
            chars@ == text@,
            i <= chars@.len(),
            out@ == xml_escaped(chars@.take(i as int)),
        decreases chars@.len() - i,
    {
        let c = chars[i];
        assert(chars@.take(i + 1).drop_last() =~= chars@.take(i as int));
        let ghost before = out@;
        if c == '&' {
            out.push('&');
            out.push('a');
            out.push('m');
            out.push('p');
            out.push(';');
        } else if c == '<' {
            out.push('&');
            out.push('l');
            out.push('t');
            out.push(';');
        } else if c == '>' {
            out.push('&');
            out.push('g');
            out.push('t');
            out.push(';');
        } else if c == '"' {
            out.push('&');
            out.push('q');
            out.push('u');
            out.push('o');
            out.push('t');
            out.push(';');
        } else {
            out.push(c);
        }
        assert(out@ =~= before + xml_char(c));
        i = i + 1;
    }
    assert(chars@.take(chars@.len() as int) =~= chars@);
    string_of(out.as_slice())
}

/// A launchd agent that starts the watcher at login, and again if it
/// fails, but not after it's been stopped.
pub fn launch_agent(label: &str, exe: &str) -> (r: String)
    ensures
        r@ == AGENT_HEAD@ + xml_escaped(label@) + AGENT_MIDDLE@ + xml_escaped(exe@) + AGENT_TAIL@,
{
    let mut agent = AGENT_HEAD.to_owned();
    agent.append(xml_escape(label).as_str());
    agent.append(AGENT_MIDDLE);
    agent.append(xml_escape(exe).as_str());
    agent.append(AGENT_TAIL);
    agent
}

/// `dirs::config_dir`: the user's config directory, which depends on the
/// environment, so nothing is promised of it. It comes back as a string: a
/// name that isn't valid Unicode has its invalid parts replaced.
#[verifier::external_body]
fn config_dir() -> Option<String> {
    match dirs::config_dir() {
        Some(dir) => Some(dir.to_string_lossy().into_owned()),
        None => None,
    }
}

/// `dirs::home_dir`: the user's home directory, which depends on the
/// environment, so nothing is promised of it. It comes back as a string: a
/// name that isn't valid Unicode has its invalid parts replaced.
#[verifier::external_body]
fn home_dir() -> Option<String> {
    match dirs::home_dir() {
        Some(dir) => Some(dir.to_string_lossy().into_owned()),
        None => None,
    }
}

/// The desktop entry in the config directory `config`:
/// `autostart/cb-watch.desktop` in it.
pub open spec fn desktop_entry_file(config: Seq<char>) -> Seq<char> {
    path_join(path_join(config, "autostart"@), "cb-watch.desktop"@)
}

/// `path` is the desktop entry in the config directory `config`, in one of
/// the forms `Path::join` takes.
#[verifier::opaque]
pub open spec fn is_desktop_entry_in(path: Seq<char>, config: Seq<char>) -> bool {
    exists|autostart: Seq<char>|
        is_joined(autostart, config, "autostart"@) && #[trigger] is_joined(path, autostart, "cb-watch.desktop"@)
}

/// `path` is the desktop entry in some config directory.
pub open spec fn is_desktop_entry(path: Seq<char>) -> bool {
    exists|config: Seq<char>| path == desktop_entry_file(config)
}

/// The desktop entry in the config directory `config`.
pub fn desktop_entry_path_in(config: &str) -> (r: String)
    ensures
        r@ == desktop_entry_file(config@),
        !may_be_verbatim(config@) ==> is_desktop_entry_in(r@, config@),
{
    proof {
        reveal_strlit("autostart");
        reveal_strlit("cb-watch.desktop");
        assert(is_plain_name("autostart"@)) by {
            assert forall|i: int| 0 <= i < "autostart"@.len() implies "autostart"@[i] != '/'
                && "autostart"@[i] != '\\' && "autostart"@[i] != ':' by {
                assert(0 <= i < 9);
            }
            assert("autostart"@.len() != seq!['.'].len());
            assert("autostart"@.len() != seq!['.', '.'].len());
        }
        assert(is_plain_name("cb-watch.desktop"@)) by {
            assert forall|i: int| 0 <= i < "cb-watch.desktop"@.len() implies "cb-watch.desktop"@[i]
                != '/' && "cb-watch.desktop"@[i] != '\\' && "cb-watch.desktop"@[i] != ':' by {
                assert(0 <= i < 16);
            }
            assert("cb-watch.desktop"@.len() != seq!['.'].len());
            assert("cb-watch.desktop"@.len() != seq!['.', '.'].len());
        }
    }
    let dir = join_path(config, "autostart");
    proof {
        if !may_be_verbatim(config@) {
            assert forall|i: int| 0 <= i < "autostart"@.len() implies "autostart"@[i] != '?' by {
                assert(0 <= i < 9);
            }
            lemma_join_keeps_plain(dir@, config@, "autostart"@);
        }
    }
    let path = join_path(dir.as_str(), "cb-watch.desktop");
    proof {
        reveal(is_desktop_entry_in);
    }
    path
}

/// What is said where there is no config directory.
pub open spec fn no_config_dir() -> Seq<char> {
    "couldn't find your config directory"@
}

/// Where the desktop entry goes, given the user's config directory if there
/// is one, or an error saying there is none.
pub fn desktop_entry_path_from(config: Option<String>) -> (r: Result<String, String>)
    ensures
        match config {
            Some(dir) => r matches Ok(path) && path@ == desktop_entry_file(dir@),
            None => r matches Err(message) && message@ == no_config_dir(),
        },
{
    match config {
        Some(config) => Ok(desktop_entry_path_in(config.as_str())),
        None => Err("couldn't find your config directory".to_owned()),
    }
}

/// Where the desktop entry goes: in the user's config directory.
pub fn desktop_entry_path() -> (r: Result<String, String>)
    ensures
        r matches Ok(path) ==> is_desktop_entry(path@),
        r matches Err(message) ==> message@ == no_config_dir(),
{
    desktop_entry_path_from(config_dir())
}

/// The file name of the launchd agent.
pub open spec fn agent_file_name() -> Seq<char> {
    LAUNCH_AGENT@ + ".plist"@
}

/// The launchd agent in the home directory `home`:
/// `Library/LaunchAgents/com.github.amilajack.cb.watch.plist` in it.
pub open spec fn launch_agent_file(home: Seq<char>) -> Seq<char> {
    path_join(path_join(path_join(home, "Library"@), "LaunchAgents"@), agent_file_name())
}

/// `path` is the launchd agent in the home directory `home`, in one of the
/// forms `Path::join` takes.
#[verifier::opaque]
pub open spec fn is_launch_agent_in(path: Seq<char>, home: Seq<char>) -> bool {
    exists|library: Seq<char>, agents: Seq<char>|
        #![trigger is_joined(library, home, "Library"@), is_joined(path, agents, agent_file_name())]
        is_joined(library, home, "Library"@) && is_joined(agents, library, "LaunchAgents"@)
            && is_joined(path, agents, agent_file_name())
}

/// `path` is the launchd agent in some home directory.
pub open spec fn is_launch_agent(path: Seq<char>) -> bool {
    exists|home: Seq<char>| path == launch_agent_file(home)
}

/// The launchd agent in the home directory `home`.
pub fn launch_agent_path_in(home: &str) -> (r: String)
    ensures
        r@ == launch_agent_file(home@),
        !may_be_verbatim(home@) ==> is_launch_agent_in(r@, home@),
{
    let mut name = LAUNCH_AGENT.to_owned();
    name.append(".plist");
    proof {
        reveal_strlit("Library");
        reveal_strlit("LaunchAgents");
        reveal_strlit("com.github.amilajack.cb.watch");
        reveal_strlit(".plist");
        assert(is_plain_name("Library"@)) by {
            assert forall|i: int| 0 <= i < "Library"@.len() implies "Library"@[i] != '/'
                && "Library"@[i] != '\\' && "Library"@[i] != ':' by {
                assert(0 <= i < 7);
            }
            assert("Library"@.len() != seq!['.'].len());
            assert("Library"@.len() != seq!['.', '.'].len());
        }
        assert(is_plain_name("LaunchAgents"@)) by {
            assert forall|i: int| 0 <= i < "LaunchAgents"@.len() implies "LaunchAgents"@[i] != '/'
                && "LaunchAgents"@[i] != '\\' && "LaunchAgents"@[i] != ':' by {
                assert(0 <= i < 12);
            }
            assert("LaunchAgents"@.len() != seq!['.'].len());
            assert("LaunchAgents"@.len() != seq!['.', '.'].len());
        }
        assert(is_plain_name(name@)) by {
            assert forall|i: int| 0 <= i < name@.len() implies name@[i] != '/' && name@[i] != '\\'
                && name@[i] != ':' by {
                assert(0 <= i < 35);
                if i < 29 {
                    assert(name@[i] == "com.github.amilajack.cb.watch"@[i]);
                } else {
                    assert(name@[i] == ".plist"@[i - 29]);
                }
            }
            assert(name@.len() != seq!['.'].len());
            assert(name@.len() != seq!['.', '.'].len());
        }
        assert(name@ == agent_file_name());
    }
    let library = join_path(home, "Library");
    proof {
        if !may_be_verbatim(home@) {
            assert forall|i: int| 0 <= i < "Library"@.len() implies "Library"@[i] != '?' by {
                assert(0 <= i < 7);
            }
            lemma_join_keeps_plain(library@, home@, "Library"@);
        }
    }
    let agents = join_path(library.as_str(), "LaunchAgents");
    proof {
        if !may_be_verbatim(home@) {
            assert forall|i: int| 0 <= i < "LaunchAgents"@.len() implies "LaunchAgents"@[i] != '?' by {
                assert(0 <= i < 12);
            }
            lemma_join_keeps_plain(agents@, library@, "LaunchAgents"@);
        }
    }
    let path = join_path(agents.as_str(), name.as_str());
    proof {
        if !may_be_verbatim(home@) {
            assert(is_joined(path@, agents@, agent_file_name()));
            assert(is_joined(library@, home@, "Library"@));
            reveal(is_launch_agent_in);
        }
    }
    path
}

/// What is said where there is no home directory.
pub open spec fn no_home_dir() -> Seq<char> {
    "couldn't find your home directory"@
}

/// Where the launchd agent goes, given the user's home directory if there is
/// one, or an error saying there is none.
pub fn launch_agent_path_from(home: Option<String>) -> (r: Result<String, String>)
    ensures
        match home {
            Some(dir) => r matches Ok(path) && path@ == launch_agent_file(dir@),
            None => r matches Err(message) && message@ == no_home_dir(),
        },
{
    match home {
        Some(home) => Ok(launch_agent_path_in(home.as_str())),
        None => Err("couldn't find your home directory".to_owned()),
    }
}

/// Where the launchd agent goes: in the user's `Library/LaunchAgents`.
pub fn launch_agent_path() -> (r: Result<String, String>)
    ensures
        r matches Ok(path) ==> is_launch_agent(path@),
        r matches Err(message) ==> message@ == no_home_dir(),
{
    launch_agent_path_from(home_dir())
}

/// Starting at login where that isn't supported: an error saying so.
pub fn install(exe: &str) -> (r: Result<String, String>)
    ensures
        r matches Err(message) && message@ == UNSUPPORTED@,
{
    Err(UNSUPPORTED.to_owned())
}

/// Stopping starting at login where that isn't supported: nothing to remove.
pub fn uninstall() -> (r: Result<Option<String>, String>)
    ensures
        r == Ok::<Option<String>, String>(None),
{
    Ok(None)
}

} // verus!
