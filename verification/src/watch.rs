//! `cb watch`: deciding which clipboard reads are new copies, where a running
//! watcher can be found, and what starts one at login.

pub mod autostart;
pub mod control;

use vstd::prelude::*;
use vstd::utf8::encode_utf8;

verus! {

/// Where FNV-1a starts.
pub const FNV_OFFSET: u64 = 0xcbf2_9ce4_8422_2325;

/// What FNV-1a multiplies by.
pub const FNV_PRIME: u64 = 0x0100_0000_01b3;

/// FNV-1a of `bytes`: for each byte, xor it in, then multiply, wrapping.
pub open spec fn fnv(bytes: Seq<u8>) -> u64
    decreases bytes.len(),
{
    if bytes.len() == 0 {
        FNV_OFFSET
    } else {
        vstd::wrapping::u64_specs::wrapping_mul(fnv(bytes.drop_last()) ^ (bytes.last() as u64), FNV_PRIME)
    }
}

/// FNV-1a, a hash that stays the same across Rust versions, unlike std's.
pub fn fnv1a(bytes: &[u8]) -> (r: u64)
    ensures
        r == fnv(bytes@),
{
    let mut hash: u64 = FNV_OFFSET;
    let mut i: usize = 0;
    assert(bytes@.take(0) =~= Seq::<u8>::empty());
    while i < bytes.len()
        invariant
            i <= bytes@.len(),
            hash == fnv(bytes@.take(i as int)),
        decreases bytes@.len() - i,
    {
        assert(bytes@.take(i + 1).drop_last() =~= bytes@.take(i as int));
        hash = (hash ^ (bytes[i] as u64)).wrapping_mul(FNV_PRIME);
        i = i + 1;
    }
    assert(bytes@.take(bytes@.len() as int) =~= bytes@);
    hash
}

/// The hash that stands for what the clipboard holds: that of its text, or
/// none for nothing or something other than text.
pub open spec fn hash_of(text: Option<Seq<char>>) -> Option<u64> {
    match text {
        Some(t) => Some(fnv(encode_utf8(t))),
        None => None,
    }
}

/// Whether the clipboard holds text that differs from what was seen last.
pub open spec fn is_new(last: Option<u64>, text: Option<Seq<char>>) -> bool {
    text is Some && last != hash_of(text)
}

/// The view of an optional string slice.
pub open spec fn text_view(text: Option<&str>) -> Option<Seq<char>> {
    match text {
        Some(t) => Some(t@),
        None => None,
    }
}

/// Decides which clipboard reads are new copies.
#[derive(Debug)]
pub struct Watcher {
    /// A hash of the text last seen, recorded or not. Keeping only a hash
    /// keeps skipped secrets out of memory.
    last: Option<u64>,
}

impl View for Watcher {
    type V = Option<u64>;

    closed spec fn view(&self) -> Option<u64> {
        self.last
    }
}

impl Default for Watcher {
    fn default() -> (r: Self)
        ensures
            r@ is None,
    {
        Watcher { last: None }
    }
}

impl Watcher {
    /// Takes what the clipboard holds now, `None` for nothing or something
    /// other than text, and returns whether to record it: whether it is a new
    /// copy that nobody asked to keep out of history. `concealed` is asked
    /// only about a new copy.
    pub fn observe<F: FnOnce() -> bool>(&mut self, text: Option<&str>, concealed: F) -> (r: bool)
        requires
            call_requires(concealed, ()),
        ensures
            final(self)@ == hash_of(text_view(text)),
            !is_new(old(self)@, text_view(text)) ==> !r,
            is_new(old(self)@, text_view(text)) ==> call_ensures(concealed, (), !r),
    {
        let hash = match text {
            Some(t) => Some(fnv1a(t.as_bytes())),
            None => None,
        };
        let same = match (hash, self.last) {
            (Some(a), Some(b)) => a == b,
            (None, None) => true,
            _ => false,
        };
        if same {
            return false;
        }
        self.last = hash;
        match text {
            Some(_) => !concealed(),
            None => false,
        }
    }
}

/// A copy is new only once: seeing the same text again right away is not.
pub proof fn lemma_seen_once(text: Option<Seq<char>>)
    ensures
        !is_new(hash_of(text), text),
{
}

/// A copy counts again after something that isn't text.
pub proof fn lemma_new_after_nothing(text: Seq<char>)
    ensures
        is_new(hash_of(None), Some(text)),
{
}

/// How many times the watcher reads the clipboard before it lets a change go.
pub const READ_TRIES: u32 = 5;

/// What reading the clipboard gave.
#[derive(Debug, Clone, Copy, PartialEq, Eq, Structural)]
pub enum ReadEvent {
    /// Text.
    Text,
    /// Nothing, or something other than text.
    NotText,
    /// The read failed: the clipboard may be busy, or the connection to the
    /// display broken.
    Failed,
}

/// What the watcher does with a read.
#[derive(Debug, Clone, Copy, PartialEq, Eq, Structural)]
pub enum ReadStep {
    /// Hand the text to the `Watcher`.
    Observe,
    /// Tell the `Watcher` that the clipboard holds no text.
    ObserveNothing,
    /// Wait this many milliseconds, connect again, and read again.
    Retry(u64),
    /// Wait this many milliseconds, connect again, and let this change go.
    GiveUp(u64),
}

/// How long to wait after failed read `attempt`, counted from 0: 100
/// milliseconds, doubling with each try.
pub open spec fn backoff(attempt: nat) -> nat {
    100 * vstd::arithmetic::power2::pow2(attempt)
}

/// What follows read `attempt`, counted from 0. Right after a copy the
/// clipboard can be busy, as on Windows, where other programs open it to read
/// it too; with nothing prompting a later look, a failed read is tried again,
/// after a longer wait each time, up to `READ_TRIES` reads.
pub open spec fn read_next(attempt: nat, event: ReadEvent) -> ReadStep {
    match event {
        ReadEvent::Text => ReadStep::Observe,
        ReadEvent::NotText => ReadStep::ObserveNothing,
        ReadEvent::Failed => if attempt + 1 < READ_TRIES {
            ReadStep::Retry(backoff(attempt) as u64)
        } else {
            ReadStep::GiveUp(backoff(attempt) as u64)
        },
    }
}

/// What the watcher does after read `attempt`, counted from 0, gave `event`.
pub fn read_step(attempt: u32, event: ReadEvent) -> (r: ReadStep)
    requires
        attempt < READ_TRIES,
    ensures
        r == read_next(attempt as nat, event),
{
    match event {
        ReadEvent::Text => ReadStep::Observe,
        ReadEvent::NotText => ReadStep::ObserveNothing,
        ReadEvent::Failed => {
            let shift = attempt as u64;
            proof {
                vstd::arithmetic::power2::lemma2_to64();
                assert(100 * vstd::arithmetic::power2::pow2(shift as nat) <= 1600);
                vstd::bits::lemma_u64_shl_is_mul(100, shift);
            }
            let wait: u64 = 100u64 << shift;
            if attempt + 1 < READ_TRIES {
                ReadStep::Retry(wait)
            } else {
                ReadStep::GiveUp(wait)
            }
        },
    }
}

/// Whether the clipboard may have changed since a change count of `before`,
/// now that the platform counts `now`: where the platform counts no changes
/// it always may have, and otherwise it has when the count moved.
pub fn count_moved(before: Option<u64>, now: Option<u64>) -> (r: bool)
    ensures
        r == (now is None || now != before),
{
    match (now, before) {
        (None, _) => true,
        (Some(a), Some(b)) => a != b,
        (Some(_), None) => true,
    }
}

/// How often, in seconds, the watcher looks at the clipboard where the
/// platform doesn't say when it changes.
pub const POLL_INTERVAL_SECS: u64 = 2;

/// How the watcher learns that the clipboard may have changed.
#[derive(Debug, Clone, Copy, PartialEq, Eq, Structural)]
pub enum Wake {
    /// The platform announces changes.
    Notified,
    /// The watcher looks every `POLL_INTERVAL_SECS`.
    Polled,
}

/// How waiting for an announcement ended.
#[derive(Debug, Clone, Copy, PartialEq, Eq, Structural)]
pub enum WaitOutcome {
    /// The clipboard changed.
    Changed,
    /// Announcements stopped coming, say because the connection broke.
    Stopped,
}

/// What the watcher does after reading the clipboard.
#[derive(Debug, Clone, Copy, PartialEq, Eq, Structural)]
pub enum WatchStep {
    /// Wait for the next announcement.
    WaitForNotice,
    /// Look again after this many seconds, and every so often after that.
    PollAfterSecs(u64),
}

/// The step that goes with a way of waking.
pub open spec fn step_for(mode: Wake) -> WatchStep {
    match mode {
        Wake::Notified => WatchStep::WaitForNotice,
        Wake::Polled => WatchStep::PollAfterSecs(POLL_INTERVAL_SECS),
    }
}

/// How the watcher starts out: on announcements where the platform makes
/// them, and otherwise by looking every `POLL_INTERVAL_SECS`.
pub fn first_wait(has_notifications: bool) -> (r: (Wake, WatchStep))
    ensures
        r.0 == (if has_notifications {
            Wake::Notified
        } else {
            Wake::Polled
        }),
        r.1 == step_for(r.0),
{
    if has_notifications {
        (Wake::Notified, WatchStep::WaitForNotice)
    } else {
        (Wake::Polled, WatchStep::PollAfterSecs(POLL_INTERVAL_SECS))
    }
}

/// How the watcher goes on after a wait that ended in `outcome`: when
/// announcements stop, it falls back to looking every `POLL_INTERVAL_SECS`
/// for good; otherwise it keeps waking as it did.
pub fn next_wait(mode: Wake, outcome: WaitOutcome) -> (r: (Wake, WatchStep))
    ensures
        r.0 == (if mode == Wake::Notified && outcome == WaitOutcome::Changed {
            Wake::Notified
        } else {
            Wake::Polled
        }),
        r.1 == step_for(r.0),
{
    match (mode, outcome) {
        (Wake::Notified, WaitOutcome::Changed) => (Wake::Notified, WatchStep::WaitForNotice),
        _ => (Wake::Polled, WatchStep::PollAfterSecs(POLL_INTERVAL_SECS)),
    }
}

} // verus!
