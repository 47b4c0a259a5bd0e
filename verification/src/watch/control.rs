//! Where other cb processes find a running watcher: one address per history
//! file, named by a hash since socket paths are short.

use vstd::prelude::*;
use vstd::utf8::encode_utf8;

use crate::history::{is_joined, is_plain_name, join_path, may_be_verbatim, path_join};
use crate::text::{chars_of, same_text, string_of, trim_end_white, trimmed_end_len};
use crate::watch::{fnv, fnv1a};

verus! {

/// The lowercase hex digit for `d`.
pub open spec fn hex_digit(d: nat) -> char {
    if d < 10 {
        (d + 48) as char
    } else {
        (d + 87) as char
    }
}

/// The last `count` hex digits of `n`, padded with zeros.
pub open spec fn hex_digits(n: nat, count: nat) -> Seq<char>
    decreases count,
{
    if count == 0 {
        seq![]
    } else {
        hex_digits(n / 16, (count - 1) as nat).push(hex_digit(n % 16))
    }
}

/// The name of the address of the watcher whose history file hashes to `hash`:
/// `cb-watch-` and the hash in sixteen hex digits.
pub open spec fn address_name(hash: u64) -> Seq<char> {
    "cb-watch-"@ + hex_digits(hash as nat, 16)
}

fn hex_char(d: u64) -> (c: char)
    requires
        d < 16,
    ensures
        c == hex_digit(d as nat),
{
    match d {
        0 => '0',
        1 => '1',
        2 => '2',
        3 => '3',
        4 => '4',
        5 => '5',
        6 => '6',
        7 => '7',
        8 => '8',
        9 => '9',
        10 => 'a',
        11 => 'b',
        12 => 'c',
        13 => 'd',
        14 => 'e',
        _ => 'f',
    }
}

/// The last `count` hex digits of `n`, appended to `out`.
fn push_hex(out: &mut Vec<char>, n: u64, count: u64)
    ensures
        final(out)@ == old(out)@ + hex_digits(n as nat, count as nat),
    decreases count,
{
    if count > 0 {
        push_hex(out, n / 16, count - 1);
        out.push(hex_char(n % 16));
    } else {
        assert(old(out)@ + hex_digits(n as nat, 0) =~= old(out)@);
    }
}

proof fn lemma_hex_plain(n: nat, count: nat)
    ensures
        hex_digits(n, count).len() == count,
        forall|i: int| 0 <= i < count ==> {
            let c = #[trigger] hex_digits(n, count)[i];
            c != '/' && c != '\\' && c != ':' && c != '.'
        },
    decreases count,
{
    if count > 0 {
        lemma_hex_plain(n / 16, (count - 1) as nat);
    }
}

/// The name of the address for the history file `history`.
pub fn address_name_of(history: &str) -> (r: String)
    ensures
        r@ == address_name(fnv(encode_utf8(history@))),
        is_plain_name(r@),
{
    let hash = fnv1a(history.as_bytes());
    let mut name: Vec<char> = Vec::new();
    name.push('c');
    name.push('b');
    name.push('-');
    name.push('w');
    name.push('a');
    name.push('t');
    name.push('c');
    name.push('h');
    name.push('-');
    let ghost prefix = name@;
    push_hex(&mut name, hash, 16);
    proof {
        reveal_strlit("cb-watch-");
        assert(prefix =~= "cb-watch-"@);
        lemma_hex_plain(hash as nat, 16);
        assert forall|i: int| 0 <= i < name@.len() implies name@[i] != '/' && name@[i] != '\\' && name@[i] != ':' by {
            if i >= 9 {
                assert(name@[i] == hex_digits(hash as nat, 16)[i - 9]);
            }
        }
        assert(name@.len() != seq!['.'].len());
        assert(name@.len() != seq!['.', '.'].len());
    }
    string_of(name.as_slice())
}

/// What a watcher says first to anything that connects, so that a stale
/// address can't be mistaken for one.
pub const GREETING: &'static str = "cb-watch";

/// What asks a watcher to stop.
pub const STOP: &'static str = "stop";

/// `line` without the whitespace at its end.
fn trimmed_line(line: &str) -> (r: String)
    ensures
        r@ == trim_end_white(line@),
{
    let chars = chars_of(line);
    let end = trimmed_end_len(chars.as_slice(), chars.len());
    assert(chars@.take(chars@.len() as int) =~= chars@);
    string_of(&chars.as_slice()[0..end])
}

/// Whether the first line read from an address is a watcher's greeting.
pub fn greets(line: &str) -> (r: bool)
    ensures
        r == (trim_end_white(line@) == GREETING@),
{
    same_text(trimmed_line(line).as_str(), GREETING)
}

/// Whether a line sent to a watcher asks it to stop.
pub fn asks_to_stop(line: &str) -> (r: bool)
    ensures
        r == (trim_end_white(line@) == STOP@),
{
    same_text(trimmed_line(line).as_str(), STOP)
}

/// How many times a watcher tries to take its address before it gives up.
pub const CLAIM_TRIES: u32 = 3;

/// What a watcher taking its address has just found out.
#[derive(Debug, Clone, Copy, PartialEq, Eq, Structural)]
pub enum ClaimEvent {
    /// It bound the address: it is the watcher now.
    Bound,
    /// The address exists already.
    InUse,
    /// Binding failed for another reason.
    BindFailed,
    /// A watcher answers at the address.
    Answered,
    /// Nothing answers at the address: a watcher that was killed left it.
    Unanswered,
    /// The address left behind is gone.
    Removed,
    /// Removing the address left behind failed.
    RemoveFailed,
}

/// What a watcher taking its address does next.
#[derive(Debug, Clone, Copy, PartialEq, Eq, Structural)]
pub enum ClaimStep {
    Bind,
    AskWhetherRunning,
    RemoveStale,
    /// Serve the address that was bound.
    Listen,
    /// Leave watching to the watcher that answered.
    LeaveToRunning,
    /// Give up with the error just met.
    Fail,
    /// Give up: the address stays in use.
    FailInUse,
}

/// The try and the step that follow `event` on try `attempt`, counted from 0.
/// Taking an address can only succeed for one process at a time, so of two
/// watchers starting at once, one gets it and the other finds it taken; an
/// address whose watcher doesn't answer is taken over, up to `CLAIM_TRIES`
/// times.
pub open spec fn claim_next(attempt: nat, event: ClaimEvent) -> (nat, ClaimStep) {
    match event {
        ClaimEvent::Bound => (attempt, ClaimStep::Listen),
        ClaimEvent::InUse => (attempt, ClaimStep::AskWhetherRunning),
        ClaimEvent::BindFailed => (attempt, ClaimStep::Fail),
        ClaimEvent::Answered => (attempt, ClaimStep::LeaveToRunning),
        ClaimEvent::Unanswered => (attempt, ClaimStep::RemoveStale),
        ClaimEvent::Removed => if attempt + 1 < CLAIM_TRIES {
            (attempt + 1, ClaimStep::Bind)
        } else {
            (attempt + 1, ClaimStep::FailInUse)
        },
        ClaimEvent::RemoveFailed => (attempt, ClaimStep::Fail),
    }
}

/// What a watcher taking its address does after `event` on try `attempt`.
pub fn claim_step(attempt: u32, event: ClaimEvent) -> (r: (u32, ClaimStep))
    requires
        attempt < CLAIM_TRIES,
    ensures
        (r.0 as nat, r.1) == claim_next(attempt as nat, event),
{
    match event {
        ClaimEvent::Bound => (attempt, ClaimStep::Listen),
        ClaimEvent::InUse => (attempt, ClaimStep::AskWhetherRunning),
        ClaimEvent::BindFailed => (attempt, ClaimStep::Fail),
        ClaimEvent::Answered => (attempt, ClaimStep::LeaveToRunning),
        ClaimEvent::Unanswered => (attempt, ClaimStep::RemoveStale),
        ClaimEvent::Removed => if attempt + 1 < CLAIM_TRIES {
            (attempt + 1, ClaimStep::Bind)
        } else {
            (attempt + 1, ClaimStep::FailInUse)
        },
        ClaimEvent::RemoveFailed => (attempt, ClaimStep::Fail),
    }
}

/// A watcher that answers is never taken over, and a try binds again only
/// while tries are left.
pub proof fn lemma_claim_respects_running(attempt: nat, event: ClaimEvent)
    ensures
        event == ClaimEvent::Answered ==> claim_next(attempt, event).1 == ClaimStep::LeaveToRunning,
        claim_next(attempt, event).1 == ClaimStep::Bind ==> claim_next(attempt, event).0
            < CLAIM_TRIES,
        claim_next(attempt, event).1 == ClaimStep::Listen ==> event == ClaimEvent::Bound,
{
}

/// `dirs::runtime_dir`: the directory for the user's sockets, which depends
/// on the environment, so nothing is promised of it. It comes back as a
/// string: a name that isn't valid Unicode has its invalid parts replaced.
#[verifier::external_body]
fn runtime_dir() -> Option<String> {
    match dirs::runtime_dir() {
        Some(dir) => Some(dir.to_string_lossy().into_owned()),
        None => None,
    }
}

/// The address of the watcher for the history file `history` inside the
/// directory `dir`: the name made of the hash of its bytes, joined onto `dir`.
pub open spec fn watcher_address(dir: Seq<char>, history: Seq<char>) -> Seq<char> {
    path_join(dir, address_name(fnv(encode_utf8(history))))
}

/// The address of the watcher for `history` inside the directory `dir`.
pub fn address_in(dir: &str, history: &str) -> (r: String)
    ensures
        r@ == watcher_address(dir@, history@),
        !may_be_verbatim(dir@) ==> is_joined(r@, dir@, address_name(fnv(encode_utf8(history@)))),
{
    let name = address_name_of(history);
    join_path(dir, name.as_str())
}

/// Where the watcher for `history` listens, given the runtime directory if
/// there is one: in it, or where there is none, in `temp_dir`.
pub fn address_from(runtime: Option<String>, temp_dir: String, history: &str) -> (r: String)
    ensures
        r@ == watcher_address(
            match runtime {
                Some(dir) => dir@,
                None => temp_dir@,
            },
            history@,
        ),
{
    let dir = match runtime {
        Some(dir) => dir,
        None => temp_dir,
    };
    address_in(dir.as_str(), history)
}

/// Where the watcher for `history` listens: in the runtime directory, or
/// where there is none, in `temp_dir`. There is one watcher per history
/// file, and socket paths are short, so the name is a hash.
pub fn address(history: &str, temp_dir: String) -> (r: String)
    ensures
        exists|dir: Seq<char>| r@ == watcher_address(dir, history@),
{
    address_from(runtime_dir(), temp_dir, history)
}

} // verus!
