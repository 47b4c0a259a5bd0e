//! Clipboard history: entries oldest first, newest last, each text kept once.

use vstd::prelude::*;
use vstd::std_specs::cmp::PartialEqSpecImpl;
use vstd::utf8::encode_utf8;

use std::time::{Duration, SystemTime};

verus! {

/// Where to keep history instead of the platform's data directory. An empty
/// value turns history off.
pub const HISTORY_ENV: &'static str = "CB_HISTORY_FILE";

/// Only the newest this many entries are kept.
pub const MAX_ENTRIES: usize = 500;

/// Larger copies aren't kept, so that reading history stays fast.
pub const MAX_ENTRY_BYTES: usize = 1024 * 1024;

#[verifier::external_type_specification]
#[verifier::external_body]
pub struct ExSystemTime(SystemTime);

/// A name that `Path::join` appends as it is: not empty, not `.` or `..`,
/// and free of separators and drive colons.
pub open spec fn is_plain_name(name: Seq<char>) -> bool {
    &&& name.len() > 0
    &&& name != seq!['.']
    &&& name != seq!['.', '.']
    &&& forall|i: int| 0 <= i < name.len() ==> name[i] != '/' && name[i] != '\\' && name[i] != ':'
}

/// `path` is `base` with `name` appended, with a separator between them
/// where the platform wants one.
pub open spec fn is_joined(path: Seq<char>, base: Seq<char>, name: Seq<char>) -> bool {
    ||| path == base + name
    ||| path == base + seq!['/'] + name
    ||| path == base + seq!['\\'] + name
}

/// What `Path::join` gives for `name` appended to `base`, as a string.
pub uninterp spec fn path_join(base: Seq<char>, name: Seq<char>) -> Seq<char>;

/// Whether `c` separates the parts of a path on some platform.
pub open spec fn is_separator(c: char) -> bool {
    c == '/' || c == '\\'
}

/// Whether `base` may begin with a Windows verbatim prefix, `\\?\`: two
/// separators and a question mark. After such a prefix `Path::join` rebuilds
/// the whole path from its components, dropping `.` among them.
pub open spec fn may_be_verbatim(base: Seq<char>) -> bool {
    base.len() >= 3 && is_separator(base[0]) && is_separator(base[1]) && base[2] == '?'
}

/// `Path::join` of a plain file name onto `base`. The result depends on the
/// two strings alone. Its documentation says that a relative path is pushed
/// onto the base, with a separator if one is needed; which separator, and
/// whether one is needed, depends on the platform, so the contract allows
/// each of them. Where the base may carry a Windows verbatim prefix, the
/// path is rebuilt from its components, and nothing more is said of it.
#[verifier::external_body]
pub(crate) fn join_path(base: &str, name: &str) -> (r: String)
    requires
        is_plain_name(name@),
    ensures
        r@ == path_join(base@, name@),
        !may_be_verbatim(base@) ==> is_joined(r@, base@, name@),
{
    std::path::Path::new(base).join(name).to_string_lossy().into_owned()
}

/// A plain name without a question mark, joined onto a base without a
/// verbatim prefix, gives a path without one.
pub proof fn lemma_join_keeps_plain(path: Seq<char>, base: Seq<char>, name: Seq<char>)
    requires
        !may_be_verbatim(base),
        is_joined(path, base, name),
        forall|i: int| 0 <= i < name.len() ==> name[i] != '?',
    ensures
        !may_be_verbatim(path),
{
    if path.len() >= 3 && base.len() < 3 {
        if path == base + name {
            assert(path[2] == name[2 - base.len()]);
        } else if base.len() == 2 {
            assert(is_separator(path[2]));
        } else {
            assert(path[2] == name[2 - base.len() - 1]);
        }
    } else if path.len() >= 3 {
        assert(path[0] == base[0] && path[1] == base[1] && path[2] == base[2]);
    }
}

/// `dirs::data_dir`: the platform's directory for user data, which depends on
/// the environment, so nothing is promised of it. It comes back as a string:
/// a name that isn't valid Unicode has its invalid parts replaced.
#[verifier::external_body]
fn data_dir() -> Option<String> {
    match dirs::data_dir() {
        Some(dir) => Some(dir.to_string_lossy().into_owned()),
        None => None,
    }
}

/// `SystemTime::now`: the clock, of which nothing is promised.
#[verifier::external_body]
fn clock_now() -> SystemTime {
    SystemTime::now()
}

/// `SystemTime::duration_since` the Unix epoch: `None` for a time before it.
#[verifier::external_body]
fn since_epoch(time: &SystemTime) -> Option<Duration> {
    time.duration_since(std::time::UNIX_EPOCH).ok()
}

/// `Duration::as_secs`: the whole seconds of a duration.
#[verifier::external_body]
fn whole_seconds(duration: &Duration) -> u64 {
    duration.as_secs()
}

/// The whole seconds since the Unix epoch, given those the clock shows past
/// it, or 0 for a clock set before it.
pub fn seconds_or_zero(elapsed: Option<u64>) -> (r: u64)
    ensures
        r == match elapsed {
            Some(s) => s,
            None => 0,
        },
{
    match elapsed {
        Some(s) => s,
        None => 0,
    }
}

/// The current time in seconds since the Unix epoch, or 0 if the clock is
/// set before it. What the clock shows is nothing this library can know, so
/// no clause says which number that is; `seconds_or_zero` decides the rest.
pub fn now() -> u64 {
    let elapsed = match since_epoch(&clock_now()) {
        Some(duration) => Some(whole_seconds(&duration)),
        None => None,
    };
    seconds_or_zero(elapsed)
}

/// The history file in the data directory `dir`: `history.jsonl` in its
/// `cb` directory.
pub open spec fn history_file(dir: Seq<char>) -> Seq<char> {
    path_join(path_join(dir, "cb"@), "history.jsonl"@)
}

/// `path` is the history file inside the data directory `dir`, in one of the
/// forms `Path::join` takes.
#[verifier::opaque]
pub open spec fn is_history_file_in(path: Seq<char>, dir: Seq<char>) -> bool {
    exists|app_dir: Seq<char>|
        is_joined(app_dir, dir, "cb"@) && #[trigger] is_joined(path, app_dir, "history.jsonl"@)
}

/// `path` is the history file inside some data directory.
pub open spec fn in_a_data_dir(path: Seq<char>) -> bool {
    exists|dir: Seq<char>| path == history_file(dir)
}

/// The history file in the data directory `dir`.
pub fn history_file_in(dir: &str) -> (r: String)
    ensures
        r@ == history_file(dir@),
        !may_be_verbatim(dir@) ==> is_history_file_in(r@, dir@),
{
    proof {
        reveal_strlit("cb");
        reveal_strlit("history.jsonl");
    }
    assert(is_plain_name("history.jsonl"@)) by {
        assert forall|i: int| 0 <= i < "history.jsonl"@.len() implies "history.jsonl"@[i] != '/'
            && "history.jsonl"@[i] != '\\' && "history.jsonl"@[i] != ':' by {
            assert(0 <= i < 13);
        }
        assert("history.jsonl"@.len() != seq!['.'].len());
        assert("history.jsonl"@.len() != seq!['.', '.'].len());
    }
    let app_dir = join_path(dir, "cb");
    proof {
        if !may_be_verbatim(dir@) {
            lemma_join_keeps_plain(app_dir@, dir@, "cb"@);
        }
    }
    let path = join_path(app_dir.as_str(), "history.jsonl");
    proof {
        reveal(is_history_file_in);
    }
    path
}

/// The history file named by an override, if there is one: an empty one
/// turns history off.
pub open spec fn overridden_path(overridden: Seq<char>) -> Option<Seq<char>> {
    if overridden.len() == 0 {
        None
    } else {
        Some(overridden)
    }
}

/// The history file, given the value of `CB_HISTORY_FILE` if it is set and
/// the platform's data directory if it has one: the override, unless it is
/// empty, which turns history off; without one, the history file in the data
/// directory.
pub open spec fn resolved_path(overridden: Option<Seq<char>>, data_dir: Option<Seq<char>>) -> Option<Seq<char>> {
    match overridden {
        Some(p) => overridden_path(p),
        None => match data_dir {
            Some(dir) => Some(history_file(dir)),
            None => None,
        },
    }
}

/// The history file, given the value of `CB_HISTORY_FILE` if it is set and
/// the platform's data directory if there is one, or `None` if history is
/// turned off.
pub fn resolve_path_in(overridden: Option<String>, data_dir: Option<String>) -> (r: Option<String>)
    ensures
        opt_view(r) == resolved_path(opt_view(overridden), opt_view(data_dir)),
{
    match overridden {
        Some(path) => {
            if path.as_str().is_empty() {
                None
            } else {
                Some(path)
            }
        },
        None => match data_dir {
            Some(dir) => Some(history_file_in(dir.as_str())),
            None => None,
        },
    }
}

/// The history file, given the value of `CB_HISTORY_FILE` if it is set, or
/// `None` if history is turned off. Without an override it is in the
/// platform's data directory, if there is one.
pub fn resolve_path(overridden: Option<String>) -> (r: Option<String>)
    ensures
        overridden matches Some(p) ==> opt_view(r) == overridden_path(p@),
        overridden is None ==> (r matches Some(path) ==> in_a_data_dir(path@)),
{
    resolve_path_in(overridden, data_dir())
}

/// What history says when it is turned off.
pub open spec fn turned_off_message() -> Seq<char> {
    "clipboard history is turned off because "@ + HISTORY_ENV@ + " is empty"@
}

/// The history file as `resolved_path` finds it, or the error saying history
/// is turned off where there is none.
pub open spec fn required_path(overridden: Option<Seq<char>>, data_dir: Option<Seq<char>>) -> Result<Seq<char>, Seq<char>> {
    match resolved_path(overridden, data_dir) {
        Some(path) => Ok(path),
        None => Err(turned_off_message()),
    }
}

/// The view of a path or an error.
pub open spec fn path_result(r: Result<String, String>) -> Result<Seq<char>, Seq<char>> {
    match r {
        Ok(path) => Ok(path@),
        Err(message) => Err(message@),
    }
}

/// The history file, given the value of `CB_HISTORY_FILE` if it is set and
/// the platform's data directory if there is one, or an error saying history
/// is turned off.
pub fn require_path_in(overridden: Option<String>, data_dir: Option<String>) -> (r: Result<String, String>)
    ensures
        path_result(r) == required_path(opt_view(overridden), opt_view(data_dir)),
{
    match resolve_path_in(overridden, data_dir) {
        Some(path) => Ok(path),
        None => {
            let mut message = "clipboard history is turned off because ".to_owned();
            message.append(HISTORY_ENV);
            message.append(" is empty");
            Err(message)
        },
    }
}

/// The history file, as `resolve_path` finds it, or an error saying history is
/// turned off.
pub fn require_path(overridden: Option<String>) -> (r: Result<String, String>)
    ensures
        r matches Err(message) ==> message@ == turned_off_message(),
        overridden matches Some(p) ==> (match overridden_path(p@) {
            Some(path) => r matches Ok(q) && q@ == path,
            None => r is Err,
        }),
        overridden is None ==> (r matches Ok(path) ==> in_a_data_dir(path@)),
{
    require_path_in(overridden, data_dir())
}

/// One copy in history.
#[derive(Debug, Clone)]
pub struct Entry {
    pub text: String,
    /// The file the text was copied from, used to pick a syntax for its preview.
    pub source: Option<String>,
    /// When it was copied, in seconds since the Unix epoch.
    pub time: u64,
}

/// What an entry holds.
pub struct EntryView {
    pub text: Seq<char>,
    pub source: Option<Seq<char>>,
    pub time: u64,
}

/// The view of an optional string.
pub open spec fn opt_view(s: Option<String>) -> Option<Seq<char>> {
    match s {
        Some(s) => Some(s@),
        None => None,
    }
}

impl View for Entry {
    type V = EntryView;

    open spec fn view(&self) -> EntryView {
        EntryView { text: self.text@, source: opt_view(self.source), time: self.time }
    }
}

impl PartialEq for Entry {
    fn eq(&self, other: &Self) -> (r: bool) {
        self.text == other.text && same_source(&self.source, &other.source) && self.time
            == other.time
    }
}

impl PartialEqSpecImpl for Entry {
    open spec fn obeys_eq_spec() -> bool {
        true
    }

    open spec fn eq_spec(&self, other: &Self) -> bool {
        self@ == other@
    }
}

impl Eq for Entry {

}

/// Whether two optional sources name the same file.
fn same_source(a: &Option<String>, b: &Option<String>) -> (r: bool)
    ensures
        r == (opt_view(*a) == opt_view(*b)),
{
    match (a, b) {
        (Some(a), Some(b)) => *a == *b,
        (None, None) => true,
        _ => false,
    }
}

/// The views of a sequence of entries.
pub open spec fn views(es: Seq<Entry>) -> Seq<EntryView> {
    es.map_values(|e: Entry| e@)
}

/// Whether a text is worth keeping: not empty, and not over the size limit.
pub open spec fn is_keepable(text: Seq<char>) -> bool {
    text.len() > 0 && encode_utf8(text).len() <= MAX_ENTRY_BYTES
}

/// Whether `e` is already the newest entry: same text, and no other source.
pub open spec fn repeats_newest(es: Seq<EntryView>, e: EntryView) -> bool {
    &&& es.len() > 0
    &&& es.last().text == e.text
    &&& (e.source is None || e.source == es.last().source)
}

/// Whether adding `e` to `es` changes anything.
pub open spec fn changes(es: Seq<EntryView>, e: EntryView) -> bool {
    is_keepable(e.text) && !repeats_newest(es, e)
}

/// The last index below `i` whose entry holds `text`.
pub open spec fn last_index_below(es: Seq<EntryView>, text: Seq<char>, i: nat) -> Option<nat>
    decreases i,
{
    if i == 0 {
        None
    } else if es[i - 1].text == text {
        Some((i - 1) as nat)
    } else {
        last_index_below(es, text, (i - 1) as nat)
    }
}

/// The last index whose entry holds `text`.
pub open spec fn last_index_of(es: Seq<EntryView>, text: Seq<char>) -> Option<nat> {
    last_index_below(es, text, es.len())
}

/// The newest `MAX_ENTRIES` of `es`.
pub open spec fn newest(es: Seq<EntryView>) -> Seq<EntryView> {
    if es.len() > MAX_ENTRIES {
        es.skip(es.len() - MAX_ENTRIES)
    } else {
        es
    }
}

/// History after `e` is added as the newest entry: an earlier copy of its
/// text goes, lending `e` its source if `e` has none, and the oldest entries
/// past the limit go.
pub open spec fn pushed(es: Seq<EntryView>, e: EntryView) -> Seq<EntryView> {
    match last_index_of(es, e.text) {
        Some(i) => newest(
            es.remove(i as int).push(
                EntryView {
                    text: e.text,
                    source: if e.source is Some {
                        e.source
                    } else {
                        es[i as int].source
                    },
                    time: e.time,
                },
            ),
        ),
        None => newest(es.push(e)),
    }
}

/// Whether no two entries hold the same text.
pub open spec fn unique_texts(es: Seq<EntryView>) -> bool {
    forall|i: int, j: int| 0 <= i < j < es.len() ==> es[i].text != es[j].text
}

/// The entries of `es` whose text is not `text`, in their order.
pub open spec fn without_text(es: Seq<EntryView>, text: Seq<char>) -> Seq<EntryView>
    decreases es.len(),
{
    if es.len() == 0 {
        es
    } else if es.last().text == text {
        without_text(es.drop_last(), text)
    } else {
        without_text(es.drop_last(), text).push(es.last())
    }
}

proof fn lemma_last_index_below(es: Seq<EntryView>, text: Seq<char>, i: nat)
    requires
        i <= es.len(),
    ensures
        last_index_below(es, text, i) matches Some(k) ==> k < i && es[k as int].text == text
            && forall|j: int| k < j < i ==> es[j].text != text,
        last_index_below(es, text, i) is None ==> forall|j: int| 0 <= j < i ==> es[j].text
            != text,
    decreases i,
{
    if i > 0 {
        lemma_last_index_below(es, text, (i - 1) as nat);
    }
}

proof fn lemma_without_absent(es: Seq<EntryView>, text: Seq<char>)
    requires
        forall|j: int| 0 <= j < es.len() ==> es[j].text != text,
    ensures
        without_text(es, text) == es,
    decreases es.len(),
{
    if es.len() > 0 {
        lemma_without_absent(es.drop_last(), text);
        assert(es.drop_last().push(es.last()) =~= es);
    }
}

proof fn lemma_without_single(es: Seq<EntryView>, text: Seq<char>, i: int)
    requires
        0 <= i < es.len(),
        es[i].text == text,
        forall|j: int| 0 <= j < es.len() && j != i ==> es[j].text != text,
    ensures
        without_text(es, text) == es.remove(i),
    decreases es.len(),
{
    if i == es.len() - 1 {
        lemma_without_absent(es.drop_last(), text);
        assert(es.drop_last() =~= es.remove(i));
    } else {
        lemma_without_single(es.drop_last(), text, i);
        assert(es.drop_last().remove(i).push(es.last()) =~= es.remove(i));
    }
}

proof fn lemma_newest_last(s: Seq<EntryView>)
    requires
        s.len() > 0,
    ensures
        newest(s).len() > 0,
        newest(s).last() == s.last(),
        newest(s).drop_last() == s.drop_last().skip(
            if s.len() > MAX_ENTRIES {
                s.len() - MAX_ENTRIES
            } else {
                0
            },
        ),
{
    if s.len() > MAX_ENTRIES {
        assert(newest(s).drop_last() =~= s.drop_last().skip(s.len() - MAX_ENTRIES));
    } else {
        assert(s.drop_last().skip(0) =~= s.drop_last());
    }
}

/// A change makes the text the newest entry, copied at the new time; it keeps
/// the new source, or, where there is none, the source of an earlier copy.
pub proof fn lemma_push_makes_newest(es: Seq<EntryView>, e: EntryView)
    ensures
        pushed(es, e).len() > 0,
        pushed(es, e).last().text == e.text,
        pushed(es, e).last().time == e.time,
        e.source is Some ==> pushed(es, e).last().source == e.source,
        e.source is None ==> pushed(es, e).last().source == match last_index_of(es, e.text) {
            Some(i) => es[i as int].source,
            None => None,
        },
{
    lemma_last_index_below(es, e.text, es.len());
    match last_index_of(es, e.text) {
        Some(i) => {
            let x = EntryView {
                text: e.text,
                source: if e.source is Some {
                    e.source
                } else {
                    es[i as int].source
                },
                time: e.time,
            };
            lemma_newest_last(es.remove(i as int).push(x));
        },
        None => {
            lemma_newest_last(es.push(e));
        },
    }
}

/// History never holds more than `MAX_ENTRIES` entries after a change.
pub proof fn lemma_push_bounded(es: Seq<EntryView>, e: EntryView)
    ensures
        pushed(es, e).len() <= MAX_ENTRIES,
{
}

/// Adding the same entry again right away changes nothing.
pub proof fn lemma_push_twice(es: Seq<EntryView>, e: EntryView)
    ensures
        !changes(pushed(es, e), e),
{
    lemma_push_makes_newest(es, e);
}

/// History that holds each text once still does after a change.
pub proof fn lemma_push_unique(es: Seq<EntryView>, e: EntryView)
    requires
        unique_texts(es),
    ensures
        unique_texts(pushed(es, e)),
{
    lemma_last_index_below(es, e.text, es.len());
    let s = match last_index_of(es, e.text) {
        Some(i) => es.remove(i as int).push(
            EntryView {
                text: e.text,
                source: if e.source is Some {
                    e.source
                } else {
                    es[i as int].source
                },
                time: e.time,
            },
        ),
        None => es.push(e),
    };
    assert(unique_texts(s)) by {
        assert forall|a: int, b: int| 0 <= a < b < s.len() implies s[a].text != s[b].text by {
            if let Some(i) = last_index_of(es, e.text) {
                if b < s.len() - 1 {
                    let a0 = if a < i { a } else { a + 1 };
                    let b0 = if b < i { b } else { b + 1 };
                    assert(s[a] == es[a0] && s[b] == es[b0]);
                } else {
                    let a0 = if a < i { a } else { a + 1 };
                    assert(s[a] == es[a0]);
                }
            } else {
                if b < s.len() - 1 {
                    assert(s[a] == es[a] && s[b] == es[b]);
                } else {
                    assert(s[a] == es[a]);
                }
            }
        }
    }
    if s.len() > MAX_ENTRIES {
        let k = s.len() - MAX_ENTRIES;
        assert forall|a: int, b: int| 0 <= a < b < s.skip(k).len() implies s.skip(k)[a].text
            != s.skip(k)[b].text by {
            assert(s.skip(k)[a] == s[a + k] && s.skip(k)[b] == s[b + k]);
        }
    }
}

/// Where each text is held once, a change keeps every other entry in its
/// order, dropping only the oldest past the limit.
pub proof fn lemma_push_keeps_order(es: Seq<EntryView>, e: EntryView)
    requires
        unique_texts(es),
    ensures
        ({
            let others = without_text(es, e.text);
            pushed(es, e).drop_last() == others.skip(
                if others.len() + 1 > MAX_ENTRIES {
                    others.len() + 1 - MAX_ENTRIES
                } else {
                    0
                },
            )
        }),
{
    lemma_last_index_below(es, e.text, es.len());
    match last_index_of(es, e.text) {
        Some(i) => {
            lemma_without_single(es, e.text, i as int);
            let x = EntryView {
                text: e.text,
                source: if e.source is Some {
                    e.source
                } else {
                    es[i as int].source
                },
                time: e.time,
            };
            let s = es.remove(i as int).push(x);
            lemma_newest_last(s);
            assert(s.drop_last() =~= es.remove(i as int));
        },
        None => {
            lemma_without_absent(es, e.text);
            lemma_newest_last(es.push(e));
            assert(es.push(e).drop_last() =~= es);
        },
    }
}

/// Adds `entry` as the newest, replacing any earlier copy of the same text and
/// dropping the oldest entries past the limit. Returns whether anything changed:
/// empty and oversized text isn't kept, and text that is already the newest
/// entry is left alone.
pub fn push(entries: &mut Vec<Entry>, entry: Entry) -> (changed: bool)
    ensures
        changed == changes(views(old(entries)@), entry@),
        changed ==> views(final(entries)@) == pushed(views(old(entries)@), entry@),
        !changed ==> final(entries)@ == old(entries)@,
{
    let mut entry = entry;
    let ghost es = views(entries@);
    if entry.text.as_str().is_empty() || entry.text.as_str().as_bytes().len() > MAX_ENTRY_BYTES {
        return false;
    }
    let n = entries.len();
    if n > 0 {
        let last = &entries[n - 1];
        assert(es.last() == entries@[n - 1]@);
        if last.text == entry.text && (entry.source.is_none() || same_source(
            &entry.source,
            &last.source,
        )) {
            return false;
        }
    }
    let mut i = n;
    let mut found: Option<usize> = None;
    while i > 0
        invariant_except_break
            found is None,
            i <= n == entries@.len(),
            es == views(entries@),
            last_index_of(es, entry@.text) == last_index_below(es, entry@.text, i as nat),
        invariant
            n == entries@.len(),
            es == views(entries@),
        ensures
            found matches Some(j) ==> j < n && last_index_of(es, entry@.text) == Some(j as nat),
            found is None ==> last_index_of(es, entry@.text) is None,
        decreases i,
    {
        i = i - 1;
        assert(es[i as int] == entries@[i as int]@);
        if entries[i].text == entry.text {
            assert(last_index_below(es, entry@.text, (i + 1) as nat) == Some(i as nat));
            found = Some(i);
            break;
        }
    }
    if let Some(j) = found {
        let earlier = entries.remove(j);
        assert(views(entries@) =~= es.remove(j as int));
        if entry.source.is_none() {
            entry.source = earlier.source;
        }
    }
    let ghost before = views(entries@);
    entries.push(entry);
    assert(views(entries@) =~= before.push(entry@));
    if entries.len() > MAX_ENTRIES {
        let at = entries.len() - MAX_ENTRIES;
        let kept = entries.split_off(at);
        let ghost all = views(entries@ + kept@);
        *entries = kept;
        assert(views(entries@) =~= all.skip(at as int));
    }
    true
}

} // verus!
