//! `cb peek`: searching clipboard history. The list, the search and the keys
//! that move through them, apart from the terminal they are drawn on.

use vstd::prelude::*;
use vstd::utf8::encode_utf8;

use std::ops::Range;

use crate::history::{views, Entry, EntryView};
use crate::encoding::{lemma_encode_concat, lemma_encode_last, lemma_scalar_bytes, width};
use crate::text::{
    char_lowercase, char_to_lowercase, chars_of, count_newlines, is_upper, is_uppercase,
    str_lowercase, to_lowercase, trim_end_word, word_trimmed_len, decimal, find_chars,
    first_occurrence, is_white, is_whitespace, newlines, occurrence_from, push_decimal,
    string_of, trim_end_white, trim_start_white, trim_white, trimmed_end_len, trimmed_start,
};

verus! {

pub const MINUTE: u64 = 60;

pub const HOUR: u64 = 60 * MINUTE;

pub const DAY: u64 = 24 * HOUR;

pub const YEAR: u64 = 365 * DAY;

/// How many seconds passed from `then` to `now`; none if `then` is later.
pub open spec fn elapsed(now: u64, then: u64) -> nat {
    if now >= then {
        (now - then) as nat
    } else {
        0
    }
}

/// How long ago `then` was, in a few characters: `now` under a minute, then
/// whole minutes, hours, days or years.
pub open spec fn age_text(now: u64, then: u64) -> Seq<char> {
    let s = elapsed(now, then);
    if s < MINUTE {
        "now"@
    } else if s < HOUR {
        decimal(s / MINUTE as nat).push('m')
    } else if s < DAY {
        decimal(s / HOUR as nat).push('h')
    } else if s < YEAR {
        decimal(s / DAY as nat).push('d')
    } else {
        decimal(s / YEAR as nat).push('y')
    }
}

/// How long ago `then` was, in a few characters.
pub fn age(now: u64, then: u64) -> (r: String)
    ensures
        r@ == age_text(now, then),
{
    let seconds = now.saturating_sub(then);
    let (count, unit) = if seconds < MINUTE {
        return "now".to_owned();
    } else if seconds < HOUR {
        (seconds / MINUTE, 'm')
    } else if seconds < DAY {
        (seconds / HOUR, 'h')
    } else if seconds < YEAR {
        (seconds / DAY, 'd')
    } else {
        (seconds / YEAR, 'y')
    };
    let mut out: Vec<char> = Vec::new();
    push_decimal(&mut out, count);
    out.push(unit);
    assert(out@ =~= age_text(now, then));
    string_of(out.as_slice())
}

/// The position of the first char at or after `i` that isn't whitespace.
pub open spec fn first_non_white(s: Seq<char>, i: nat) -> Option<nat>
    decreases s.len() - i,
{
    if i >= s.len() {
        None
    } else if !is_white(s[i as int]) {
        Some(i)
    } else {
        first_non_white(s, i + 1)
    }
}

/// The number of the first line of `text` that isn't blank, or 0 if all are.
pub open spec fn nonblank_line(text: Seq<char>) -> nat {
    match first_non_white(text, 0) {
        Some(i) => newlines(text.take(i as int)),
        None => 0,
    }
}

/// The number of the first line of `text` that isn't blank, or 0 if all are.
pub fn first_nonblank_line(text: &[char]) -> (r: usize)
    ensures
        r == nonblank_line(text@),
{
    let mut i: usize = 0;
    while i < text.len()
        invariant
            i <= text@.len(),
            first_non_white(text@, 0) == first_non_white(text@, i as nat),
        decreases text@.len() - i,
    {
        if !is_whitespace(text[i]) {
            return count_newlines(text, i);
        }
        i = i + 1;
    }
    0
}

/// How many lines `text` has, as `str::lines` counts them: a final line
/// feed ends the last line rather than starting another.
pub open spec fn lines_in(text: Seq<char>) -> nat {
    newlines(text) + if text.len() > 0 && text.last() != '\n' {
        1nat
    } else {
        0nat
    }
}

/// How many lines `text` has.
pub fn line_count(text: &str) -> (r: usize)
    ensures
        r == lines_in(text@),
{
    let chars = chars_of(text);
    let n = chars.len();
    let count = count_newlines(chars.as_slice(), n);
    assert(chars@.take(n as int) =~= chars@);
    if n > 0 && chars[n - 1] != '\n' {
        count + 1
    } else {
        count
    }
}

/// How the preview's title gives a number of lines: `1 line`, or the number
/// and `lines`.
pub open spec fn lines_label(n: nat) -> Seq<char> {
    if n == 1 {
        "1 line"@
    } else {
        decimal(n) + " lines"@
    }
}

/// How the preview's title gives `n` lines.
pub fn lines_title(n: usize) -> (r: String)
    ensures
        r@ == lines_label(n as nat),
{
    if n == 1 {
        return "1 line".to_owned();
    }
    let mut out: Vec<char> = Vec::new();
    push_decimal(&mut out, n as u64);
    let mut r = string_of(out.as_slice());
    r.append(" lines");
    r
}

/// How many bytes `s` takes in UTF-8.
pub open spec fn bytes_len(s: Seq<char>) -> nat {
    encode_utf8(s).len()
}

/// The lowercase forms of `cs`, one after another, as
/// `chars().flat_map(char::to_lowercase)` yields them.
pub open spec fn lowered(cs: Seq<char>) -> Seq<char>
    decreases cs.len(),
{
    if cs.len() == 0 {
        seq![]
    } else {
        lowered(cs.drop_last()) + char_lowercase(cs.last())
    }
}

/// The fewest chars of `h` from position `s`, at least `k`, whose lowercase
/// forms come to `m` chars or more.
pub open spec fn covering(h: Seq<char>, s: nat, m: nat, k: nat) -> Option<nat>
    decreases h.len() - (s + k),
{
    if s + k > h.len() {
        None
    } else if lowered(h.subrange(s as int, (s + k) as int)).len() >= m {
        Some(k)
    } else if s + k == h.len() {
        None
    } else {
        covering(h, s, m, k + 1)
    }
}

/// How many chars of `h` from position `s` match `n` once lowercased, if they
/// do: the fewest whose lowercase forms begin with `n`.
pub open spec fn folded_match_at(h: Seq<char>, n: Seq<char>, s: nat) -> Option<nat> {
    match covering(h, s, n.len(), 0) {
        Some(k) => if lowered(h.subrange(s as int, (s + k) as int)).take(n.len() as int) == n {
            Some(k)
        } else {
            None
        },
        None => None,
    }
}

/// The first position at or after `s` where `h` matches `n` once lowercased,
/// with how many chars match.
pub open spec fn folded_match_from(h: Seq<char>, n: Seq<char>, s: nat) -> Option<(nat, nat)>
    decreases h.len() - s,
{
    if s >= h.len() {
        None
    } else {
        match folded_match_at(h, n, s) {
            Some(k) => Some((s, k)),
            None => folded_match_from(h, n, s + 1),
        }
    }
}

/// Where `needle` first appears in `haystack`, as a range of bytes. Without
/// `case_sensitive`, chars are compared by their lowercase forms, and the
/// range covers the chars of `haystack` that matched.
pub open spec fn found(haystack: Seq<char>, needle: Seq<char>, case_sensitive: bool) -> Option<(nat, nat)> {
    if needle.len() == 0 {
        None
    } else if case_sensitive {
        match first_occurrence(haystack, needle) {
            Some(at) => Some(
                (bytes_len(haystack.take(at as int)), bytes_len(haystack.take(at as int)) + bytes_len(needle)),
            ),
            None => None,
        }
    } else {
        match folded_match_from(haystack, lowered(needle), 0) {
            Some((s, k)) => Some(
                (bytes_len(haystack.take(s as int)), bytes_len(haystack.take((s + k) as int))),
            ),
            None => None,
        }
    }
}

/// The bounds of a range.
pub open spec fn range_view(r: Option<Range<usize>>) -> Option<(nat, nat)> {
    match r {
        Some(r) => Some((r.start as nat, r.end as nat)),
        None => None,
    }
}

proof fn lemma_lowered_push(cs: Seq<char>, c: char)
    ensures
        lowered(cs.push(c)) == lowered(cs) + char_lowercase(c),
{
    assert(cs.push(c).drop_last() =~= cs);
}

proof fn lemma_lowered_grows(h: Seq<char>, s: nat, k: nat, j: nat)
    requires
        s + j <= h.len(),
        k <= j,
    ensures
        lowered(h.subrange(s as int, (s + j) as int)).len() >= lowered(h.subrange(s as int, (s + k) as int)).len(),
        lowered(h.subrange(s as int, (s + j) as int)).take(lowered(h.subrange(s as int, (s + k) as int)).len() as int)
            == lowered(h.subrange(s as int, (s + k) as int)),
    decreases j - k,
{
    if k < j {
        lemma_lowered_grows(h, s, k, (j - 1) as nat);
        let a = h.subrange(s as int, (s + j - 1) as int);
        assert(h.subrange(s as int, (s + j) as int) =~= a.push(h[s + j - 1]));
        lemma_lowered_push(a, h[s + j - 1]);
        let low = lowered(h.subrange(s as int, (s + k) as int));
        assert((lowered(a) + char_lowercase(h[s + j - 1])).take(low.len() as int) =~= lowered(a).take(low.len() as int));
    } else {
        assert(lowered(h.subrange(s as int, (s + j) as int)).take(lowered(h.subrange(s as int, (s + k) as int)).len() as int)
            =~= lowered(h.subrange(s as int, (s + k) as int)));
    }
}

proof fn lemma_covering_bound(h: Seq<char>, s: nat, m: nat, k: nat)
    ensures
        covering(h, s, m, k) matches Some(j) ==> k <= j && s + j <= h.len() && lowered(h.subrange(s as int, (s + j) as int)).len() >= m,
    decreases h.len() - (s + k),
{
    if s + k < h.len() && lowered(h.subrange(s as int, (s + k) as int)).len() < m {
        lemma_covering_bound(h, s, m, k + 1);
    }
}

/// How many bytes `c` takes in UTF-8.
fn char_width(c: char) -> (r: usize)
    ensures
        r == width(c),
{
    proof {
        lemma_scalar_bytes(c);
    }
    let u = c as u32;
    if u < 0x80 {
        1
    } else if u < 0x800 {
        2
    } else if u < 0x10000 {
        3
    } else {
        4
    }
}

proof fn lemma_prefix_bytes(h: Seq<char>, i: int)
    requires
        0 <= i <= h.len(),
    ensures
        i < h.len() ==> bytes_len(h.take(i + 1)) == bytes_len(h.take(i)) + width(h[i]),
        bytes_len(h.take(i)) <= bytes_len(h),
{
    if i < h.len() {
        lemma_encode_last(h.take(i + 1));
        assert(h.take(i + 1).drop_last() =~= h.take(i));
    }
    lemma_encode_concat(h.take(i), h.skip(i));
    assert(h.take(i) + h.skip(i) =~= h);
}

/// How many bytes the first `i` chars of `h` take.
fn byte_offset(h: &[char], i: usize) -> (r: usize)
    requires
        i <= h@.len(),
        bytes_len(h@) <= usize::MAX,
    ensures
        r == bytes_len(h@.take(i as int)),
{
    let mut total: usize = 0;
    let mut j: usize = 0;
    assert(h@.take(0) =~= Seq::<char>::empty());
    assert(encode_utf8(Seq::<char>::empty()) =~= Seq::<u8>::empty());
    while j < i
        invariant
            j <= i <= h@.len(),
            total == bytes_len(h@.take(j as int)),
            bytes_len(h@) <= usize::MAX,
        decreases i - j,
    {
        proof {
            lemma_prefix_bytes(h@, j as int);
            lemma_prefix_bytes(h@, j + 1);
        }
        total = total + char_width(h[j]);
        j = j + 1;
    }
    total
}

proof fn lemma_occurrence(h: Seq<char>, n: Seq<char>, i: nat)
    ensures
        occurrence_from(h, n, i) matches Some(at) ==> i <= at && at + n.len() <= h.len()
            && h.subrange(at as int, (at + n.len()) as int) == n,
    decreases h.len() - i,
{
    if i + n.len() <= h.len() && !(h.subrange(i as int, (i + n.len()) as int) =~= n) {
        lemma_occurrence(h, n, i + 1);
    }
}

/// How many chars of `h` from position `s` match `n` once lowercased, if they do.
fn folded_match(h: &[char], n: &[char], s: usize) -> (r: Option<usize>)
    requires
        s < h@.len(),
        n@.len() >= 1,
    ensures
        r matches Some(k) ==> folded_match_at(h@, n@, s as nat) == Some(k as nat),
        r is None ==> folded_match_at(h@, n@, s as nat) is None,
{
    let hl = h.len();
    let m = n.len();
    let mut k: usize = 0;
    let mut pos: usize = 0;
    assert(h@.subrange(s as int, s as int) =~= Seq::<char>::empty());
    assert(n@.take(0) =~= Seq::<char>::empty());
    while s + k < hl
        invariant
            hl == h@.len(),
            m == n@.len(),
            m >= 1,
            s < hl,
            s + k <= hl,
            pos == lowered(h@.subrange(s as int, (s + k) as int)).len(),
            pos < m,
            lowered(h@.subrange(s as int, (s + k) as int)) == n@.take(pos as int),
            covering(h@, s as nat, m as nat, 0) == covering(h@, s as nat, m as nat, k as nat),
        decreases hl - (s + k),
    {
        let ghost before = h@.subrange(s as int, (s + k) as int);
        let ghost lower_before = lowered(before);
        let low = char_to_lowercase(h[s + k]);
        let ghost after = h@.subrange(s as int, (s + k + 1) as int);
        proof {
            assert(after =~= before.push(h@[s + k]));
            lemma_lowered_push(before, h@[s + k]);
            assert(covering(h@, s as nat, m as nat, k as nat) == covering(h@, s as nat, m as nat, (k + 1) as nat));
        }
        let mut j: usize = 0;
        while j < low.len()
            invariant
                hl == h@.len(),
                m == n@.len(),
                s < hl,
                s + k < hl,
                after == h@.subrange(s as int, (s + k + 1) as int),
                lower_before == lowered(h@.subrange(s as int, (s + k) as int)),
                lower_before.len() < m,
                covering(h@, s as nat, m as nat, 0) == covering(h@, s as nat, m as nat, (k + 1) as nat),
                j <= low@.len(),
                low@ == char_lowercase(h@[s + k]),
                lowered(after) == lower_before + low@,
                pos == lower_before.len() + j,
                pos <= m,
                lower_before + low@.take(j as int) == n@.take(pos as int),
            ensures
                j == low@.len() || pos == m,
            decreases low@.len() - j,
        {
            if pos == m {
                break;
            }
            if low[j] != n[pos] {
                proof {
                    lemma_covering_bound(h@, s as nat, m as nat, (k + 1) as nat);
                    if let Some(e) = covering(h@, s as nat, m as nat, (k + 1) as nat) {
                        lemma_lowered_grows(h@, s as nat, (k + 1) as nat, e);
                        let longer = lowered(h@.subrange(s as int, (s + e) as int));
                        let la = lowered(after);
                        assert(pos < la.len());
                        assert(longer.take(la.len() as int)[pos as int] == longer[pos as int]);
                        assert(la[pos as int] == low@[j as int]);
                        assert(longer.take(m as int)[pos as int] == longer[pos as int]);
                        assert(longer.take(m as int)[pos as int] != n@[pos as int]);
                        assert(longer.take(m as int) != n@);
                    }
                }
                return None;
            }
            proof {
                assert(lower_before + low@.take(j + 1) =~= (lower_before + low@.take(j as int)).push(low@[j as int]));
                assert(n@.take(pos + 1) =~= n@.take(pos as int).push(n@[pos as int]));
            }
            pos = pos + 1;
            j = j + 1;
        }
        k = k + 1;
        proof {
            assert(h@.subrange(s as int, (s + k) as int) == after);
        }
        if pos == m {
            proof {
                assert(lowered(after).len() >= m);
                assert(covering(h@, s as nat, m as nat, k as nat) == Some(k as nat));
                assert(lowered(after).take(m as int) =~= lower_before + low@.take(j as int));
                assert(n@.take(m as int) =~= n@);
            }
            return Some(k);
        }
        proof {
            assert(low@.take(j as int) =~= low@);
        }
    }
    None
}

/// Where `needle` first appears in `haystack`, as a byte range of `haystack`.
/// Without `case_sensitive`, letters are compared by their lowercase forms,
/// char by char, so the range stays right even where lowercasing changes how
/// many bytes a char takes.
pub fn find(haystack: &str, needle: &str, case_sensitive: bool) -> (r: Option<Range<usize>>)
    ensures
        range_view(r) == found(haystack@, needle@, case_sensitive),
{
    let h = chars_of(haystack);
    let nd = chars_of(needle);
    if nd.len() == 0 {
        return None;
    }
    let total = haystack.as_bytes().len();
    assert(total == bytes_len(h@));
    if case_sensitive {
        match find_chars(h.as_slice(), nd.as_slice()) {
            Some(at) => {
                proof {
                    lemma_occurrence(h@, nd@, 0);
                    lemma_encode_concat(h@.take(at as int), nd@);
                    assert(h@.take(at as int) + nd@ =~= h@.take(at + nd@.len()));
                    lemma_prefix_bytes(h@, at + nd@.len());
                }
                let start = byte_offset(h.as_slice(), at);
                let end = start + needle.as_bytes().len();
                Some(start..end)
            },
            None => None,
        }
    } else {
        let mut n: Vec<char> = Vec::new();
        let mut i: usize = 0;
        assert(nd@.take(0) =~= Seq::<char>::empty());
        while i < nd.len()
            invariant
                i <= nd@.len(),
                n@ == lowered(nd@.take(i as int)),
                n@.len() >= i,
            decreases nd@.len() - i,
        {
            let mut low = char_to_lowercase(nd[i]);
            proof {
                assert(nd@.take(i + 1) =~= nd@.take(i as int).push(nd@[i as int]));
                lemma_lowered_push(nd@.take(i as int), nd@[i as int]);
            }
            n.append(&mut low);
            i = i + 1;
        }
        assert(nd@.take(nd@.len() as int) =~= nd@);
        let mut s: usize = 0;
        while s < h.len()
            invariant
                s <= h@.len(),
                h@ == haystack@,
                nd@ == needle@,
                nd@.len() > 0,
                !case_sensitive,
                n@ == lowered(nd@),
                n@.len() >= 1,
                total == bytes_len(h@),
                folded_match_from(h@, n@, 0) == folded_match_from(h@, n@, s as nat),
            decreases h@.len() - s,
        {
            match folded_match(h.as_slice(), n.as_slice(), s) {
                Some(k) => {
                    proof {
                        lemma_covering_bound(h@, s as nat, n@.len(), 0);
                        assert(folded_match_from(h@, n@, s as nat) == Some((s as nat, k as nat)));
                    }
                    let start = byte_offset(h.as_slice(), s);
                    let end = byte_offset(h.as_slice(), s + k);
                    assert(found(haystack@, needle@, case_sensitive) == Some((start as nat, end as nat)));
                    return Some(start..end);
                },
                None => {},
            }
            s = s + 1;
        }
        None
    }
}

/// Lines kept above a search match when the preview scrolls to it.
pub const MATCH_CONTEXT: usize = 3;

/// An entry that matches the search, and the line to show for it in the list:
/// the first one that matches the search, or with no search, the first one
/// that isn't blank.
#[derive(Debug, Clone, Copy, PartialEq, Eq, Structural)]
pub struct Match {
    pub entry: usize,
    pub line: usize,
}

/// What a key press leads to.
#[derive(Debug, Clone, Copy, PartialEq, Eq, Structural)]
pub enum Outcome {
    Continue,
    Quit,
    /// Copy the entry with this index.
    Copy(usize),
}

/// The keys that `cb peek` tells apart.
#[derive(Debug, Clone, Copy, PartialEq, Eq, Structural)]
pub enum KeyCode {
    Esc,
    Enter,
    Up,
    Down,
    PageUp,
    PageDown,
    Backspace,
    Char(char),
    Other,
}

/// A key press, with the modifiers held down.
#[derive(Debug, Clone, Copy, PartialEq, Eq, Structural)]
pub struct Key {
    pub code: KeyCode,
    pub ctrl: bool,
    pub shift: bool,
    pub alt: bool,
}

/// Smart case, as in ripgrep and fzf: an uppercase letter in the search
/// makes it case-sensitive.
pub open spec fn case_sensitive(query: Seq<char>) -> bool {
    exists|i: int| 0 <= i < query.len() && is_uppercase(#[trigger] query[i])
}

/// The line to show for `text` if it matches `query`: with no query, its first
/// line that isn't blank; otherwise the line where the query first occurs, in
/// the text or, for a case-insensitive search, in its lowercase form.
pub open spec fn match_line(text: Seq<char>, query: Seq<char>) -> Option<nat> {
    if query.len() == 0 {
        Some(nonblank_line(text))
    } else {
        let sensitive = case_sensitive(query);
        let hay = if sensitive {
            text
        } else {
            str_lowercase(text)
        };
        let wanted = if sensitive {
            query
        } else {
            str_lowercase(query)
        };
        match first_occurrence(hay, wanted) {
            Some(at) => Some(newlines(hay.take(at as int))),
            None => None,
        }
    }
}

/// The matches for `query` among the first `n` entries, in their order.
pub open spec fn matches_upto(entries: Seq<EntryView>, query: Seq<char>, n: nat) -> Seq<Match>
    decreases n,
{
    if n == 0 {
        seq![]
    } else {
        let before = matches_upto(entries, query, (n - 1) as nat);
        match match_line(entries[n - 1].text, query) {
            Some(line) => before.push(Match { entry: (n - 1) as usize, line: line as usize }),
            None => before,
        }
    }
}

/// The matches for `query` among `entries`, in their order.
pub open spec fn matches_for(entries: Seq<EntryView>, query: Seq<char>) -> Seq<Match> {
    matches_upto(entries, query, entries.len())
}

/// `a - b`, or 0 if `b` is larger.
pub open spec fn sat_sub(a: nat, b: nat) -> nat {
    if a >= b {
        (a - b) as nat
    } else {
        0
    }
}

/// `x` held within what a `usize` can hold.
pub open spec fn clamp_usize(x: int) -> nat {
    if x < 0 {
        0
    } else if x > usize::MAX {
        usize::MAX as nat
    } else {
        x as nat
    }
}

/// What `cb peek` shows: the entries, most recent first, the search, the
/// entries that match it, the selected match, and the preview's scroll
/// position, height and length.
pub struct AppView {
    pub entries: Seq<EntryView>,
    pub query: Seq<char>,
    pub matches: Seq<Match>,
    pub selected: Option<nat>,
    pub scroll: nat,
    pub preview_height: nat,
    pub preview_lines: nat,
}

impl AppView {
    /// The matches are those of the search, and one of them is selected
    /// whenever there are any.
    pub open spec fn well_formed(self) -> bool {
        &&& self.entries.len() <= usize::MAX
        &&& self.matches == matches_for(self.entries, self.query)
        &&& (self.selected is Some <==> self.matches.len() > 0)
        &&& (self.selected matches Some(i) ==> i < self.matches.len())
        &&& self.scroll <= usize::MAX
        &&& self.preview_height <= u16::MAX
        &&& self.preview_lines <= usize::MAX
    }

    /// Selects match `index`, or the last if there are fewer, and scrolls the
    /// preview to where the search matched, with a little context above it.
    pub open spec fn select(self, index: nat) -> AppView {
        if self.matches.len() == 0 {
            AppView { selected: None, ..self }
        } else {
            let i = if index < self.matches.len() {
                index
            } else {
                (self.matches.len() - 1) as nat
            };
            AppView {
                selected: Some(i),
                scroll: if self.query.len() == 0 {
                    0
                } else {
                    sat_sub(self.matches[i as int].line as nat, MATCH_CONTEXT as nat)
                },
                ..self
            }
        }
    }

    /// Searches for `query`, and selects the first match.
    pub open spec fn search(self, query: Seq<char>) -> AppView {
        AppView { query, matches: matches_for(self.entries, query), ..self }.select(0)
    }

    /// Moves the selection by `delta`, stopping at the ends.
    pub open spec fn move_by(self, delta: int) -> AppView {
        match self.selected {
            Some(i) => self.select(clamp_usize(i + delta)),
            None => self,
        }
    }

    /// Scrolls the preview by `delta` lines, no further than its last page.
    pub open spec fn scroll_by(self, delta: int) -> AppView {
        let most = sat_sub(self.preview_lines, self.preview_height);
        let moved = clamp_usize(self.scroll + delta);
        AppView {
            scroll: if moved < most {
                moved
            } else {
                most
            },
            ..self
        }
    }

    /// How far a page scrolls: the preview's height, and at least a line.
    pub open spec fn page(self) -> int {
        if self.preview_height > 0 {
            self.preview_height as int
        } else {
            1
        }
    }

    /// The preview drawn `height` lines high, for an entry of `lines` lines
    /// if one is selected, kept from scrolling past its end.
    pub open spec fn show(self, height: nat, lines: Option<nat>) -> AppView {
        match lines {
            Some(n) => {
                let most = sat_sub(n, height);
                AppView {
                    preview_height: height,
                    preview_lines: n,
                    scroll: if self.scroll > most {
                        most
                    } else {
                        self.scroll
                    },
                    ..self
                }
            },
            None => AppView { preview_height: height, ..self },
        }
    }
}

/// What a key asks for.
pub enum Command {
    Quit,
    Pick,
    MoveBy(int),
    ScrollBy(int),
    PageUp,
    PageDown,
    DeleteChar,
    DeleteWord,
    ClearSearch,
    Type(char),
    Ignore,
}

/// What a key asks for. As in a shell's history search, Ctrl-R moves on to the
/// next match and Ctrl-S back to the previous one; AltGr arrives as Ctrl+Alt
/// on Windows, so a char typed with both is typed.
pub open spec fn command(key: Key) -> Command {
    match key.code {
        KeyCode::Esc => Command::Quit,
        KeyCode::Enter => Command::Pick,
        KeyCode::Up => if key.shift {
            Command::ScrollBy(-1)
        } else {
            Command::MoveBy(-1)
        },
        KeyCode::Down => if key.shift {
            Command::ScrollBy(1)
        } else {
            Command::MoveBy(1)
        },
        KeyCode::PageUp => Command::PageUp,
        KeyCode::PageDown => Command::PageDown,
        KeyCode::Backspace => Command::DeleteChar,
        KeyCode::Char(c) => if key.ctrl && (c == 'c' || c == 'g') {
            Command::Quit
        } else if key.ctrl && (c == 'r' || c == 'n') {
            Command::MoveBy(1)
        } else if key.ctrl && (c == 's' || c == 'p') {
            Command::MoveBy(-1)
        } else if key.ctrl && c == 'u' {
            Command::ClearSearch
        } else if key.ctrl && c == 'w' {
            Command::DeleteWord
        } else if !key.ctrl || key.alt {
            Command::Type(c)
        } else {
            Command::Ignore
        },
        KeyCode::Other => Command::Ignore,
    }
}

/// The search with its last word, and the whitespace after it, deleted.
pub open spec fn without_last_word(query: Seq<char>) -> Seq<char> {
    trim_end_word(trim_end_white(query))
}

proof fn lemma_matches_upto(entries: Seq<EntryView>, query: Seq<char>, n: nat)
    requires
        n <= entries.len() <= usize::MAX,
    ensures
        ({
            let m = matches_upto(entries, query, n);
            &&& m.len() <= n
            &&& forall|k: int| 0 <= k < m.len() ==> (#[trigger] m[k]).entry < n
            &&& forall|k: int| 0 <= k < m.len() ==> match_line(entries[(#[trigger] m[k]).entry as int].text, query) is Some
                && m[k].line == match_line(entries[m[k].entry as int].text, query).unwrap() as usize
            &&& forall|a: int, b: int| 0 <= a < b < m.len() ==> (#[trigger] m[a]).entry < (#[trigger] m[b]).entry
            &&& forall|i: int| 0 <= i < n && (#[trigger] match_line(entries[i].text, query)) is Some ==> exists|k: int|
                0 <= k < m.len() && (#[trigger] m[k]).entry == i
        }),
    decreases n,
{
    if n > 0 {
        lemma_matches_upto(entries, query, (n - 1) as nat);
        let before = matches_upto(entries, query, (n - 1) as nat);
        let m = matches_upto(entries, query, n);
        match match_line(entries[n - 1].text, query) {
            Some(line) => {
                assert(m == before.push(Match { entry: (n - 1) as usize, line: line as usize }));
                assert forall|i: int| 0 <= i < n && (#[trigger] match_line(entries[i].text, query)) is Some implies exists|k: int|
                    0 <= k < m.len() && (#[trigger] m[k]).entry == i by {
                    if i == n - 1 {
                        assert(m[m.len() - 1].entry == i);
                    } else {
                        let k = choose|k: int| 0 <= k < before.len() && (#[trigger] before[k]).entry == i;
                        assert(m[k] == before[k]);
                    }
                }
            },
            None => {},
        }
    }
}

/// The matches are the entries that match the search, each once, in the
/// order of the entries, each with the line where it matches.
pub proof fn lemma_matches(entries: Seq<EntryView>, query: Seq<char>)
    requires
        entries.len() <= usize::MAX,
    ensures
        ({
            let m = matches_for(entries, query);
            &&& m.len() <= entries.len()
            &&& forall|k: int| 0 <= k < m.len() ==> (#[trigger] m[k]).entry < entries.len()
            &&& forall|k: int| 0 <= k < m.len() ==> match_line(entries[(#[trigger] m[k]).entry as int].text, query) is Some
                && m[k].line == match_line(entries[m[k].entry as int].text, query).unwrap() as usize
            &&& forall|a: int, b: int| 0 <= a < b < m.len() ==> (#[trigger] m[a]).entry < (#[trigger] m[b]).entry
            &&& forall|i: int| 0 <= i < entries.len() && (#[trigger] match_line(entries[i].text, query)) is Some ==> exists|k: int|
                0 <= k < m.len() && (#[trigger] m[k]).entry == i
        }),
{
    lemma_matches_upto(entries, query, entries.len());
}

proof fn lemma_empty_search_upto(entries: Seq<EntryView>, n: nat)
    requires
        n <= entries.len() <= usize::MAX,
    ensures
        matches_upto(entries, seq![], n).len() == n,
        forall|i: int| 0 <= i < n ==> (#[trigger] matches_upto(entries, seq![], n)[i]).entry == i,
    decreases n,
{
    if n > 0 {
        lemma_empty_search_upto(entries, (n - 1) as nat);
    }
}

/// With nothing searched for, every entry is listed, in order.
pub proof fn lemma_empty_search_lists_all(entries: Seq<EntryView>)
    requires
        entries.len() <= usize::MAX,
    ensures
        matches_for(entries, seq![]).len() == entries.len(),
        forall|i: int| 0 <= i < entries.len() ==> (#[trigger] matches_for(entries, seq![])[i]).entry == i,
{
    lemma_empty_search_upto(entries, entries.len());
}

/// Searching, moving, scrolling and drawing the preview all keep the view
/// well formed: the matches are those of the search, and one of them is
/// selected whenever there are any.
pub proof fn lemma_steps_keep_well_formed(v: AppView, query: Seq<char>, delta: int, height: nat, lines: Option<nat>)
    requires
        v.well_formed(),
        height <= u16::MAX,
        lines matches Some(n) ==> n <= usize::MAX,
    ensures
        v.search(query).well_formed(),
        v.move_by(delta).well_formed(),
        v.scroll_by(delta).well_formed(),
        v.show(height, lines).well_formed(),
{
}

/// The selection stops at the ends of the list.
pub proof fn lemma_moves_stop_at_ends(v: AppView)
    requires
        v.well_formed(),
    ensures
        v.selected == Some(0nat) ==> v.move_by(-1).selected == Some(0nat),
        v.selected == Some((v.matches.len() - 1) as nat) ==> v.move_by(1).selected == Some(
            (v.matches.len() - 1) as nat,
        ),
{
    lemma_matches(v.entries, v.query);
}

/// What Enter copies is an entry that matches the search.
pub proof fn lemma_pick_matches(v: AppView)
    requires
        v.well_formed(),
    ensures
        v.selected matches Some(i) ==> v.matches[i as int].entry < v.entries.len() && match_line(
            v.entries[v.matches[i as int].entry as int].text,
            v.query,
        ) is Some,
{
    lemma_matches(v.entries, v.query);
}

/// Deleting a char just typed brings back the search, the list and the
/// selection that the search without it gives.
pub proof fn lemma_backspace_undoes_typing(v: AppView, c: char)
    requires
        v.well_formed(),
    ensures
        ({
            let typed = v.search(v.query.push(c));
            let back = typed.search(typed.query.drop_last());
            &&& back.entries == v.entries
            &&& back.query == v.query
            &&& back.matches == v.search(v.query).matches
            &&& back.selected == v.search(v.query).selected
        }),
{
    assert(v.query.push(c).drop_last() =~= v.query);
}

proof fn lemma_newlines_bound(s: Seq<char>)
    ensures
        newlines(s) <= s.len(),
    decreases s.len(),
{
    if s.len() > 0 {
        lemma_newlines_bound(s.drop_last());
    }
}

proof fn lemma_first_non_white(s: Seq<char>, i: nat)
    ensures
        first_non_white(s, i) matches Some(p) ==> i <= p < s.len() && !is_white(s[p as int])
            && forall|q: int| i <= q < p ==> is_white(#[trigger] s[q]),
        first_non_white(s, i) is None ==> forall|q: int| i <= q < s.len() ==> is_white(#[trigger] s[q]),
    decreases s.len() - i,
{
    if i < s.len() && is_white(s[i as int]) {
        lemma_first_non_white(s, i + 1);
    }
}

/// With nothing searched for, the list shows for each entry its first line
/// that isn't blank: the line holding its first char that isn't whitespace,
/// counted by the line feeds before that char; and line 0 for an entry that
/// is all whitespace.
pub proof fn lemma_empty_search_shows_first_nonblank_line(entries: Seq<EntryView>)
    requires
        entries.len() <= usize::MAX,
        forall|i: int| 0 <= i < entries.len() ==> (#[trigger] entries[i]).text.len() <= usize::MAX,
    ensures
        forall|k: int| 0 <= k < entries.len() ==> {
            let m = #[trigger] matches_for(entries, seq![])[k];
            let text = entries[k].text;
            &&& m.entry == k
            &&& (exists|p: int|
                0 <= p < text.len() && !is_white(text[p]) && (forall|q: int| 0 <= q < p ==> is_white(#[trigger] text[q]))
                    && m.line == newlines(text.take(p)))
                || ((forall|q: int| 0 <= q < text.len() ==> is_white(#[trigger] text[q])) && m.line == 0)
        },
{
    lemma_empty_search_lists_all(entries);
    lemma_matches(entries, seq![]);
    assert forall|k: int| 0 <= k < entries.len() implies {
        let m = #[trigger] matches_for(entries, seq![])[k];
        let text = entries[k].text;
        &&& m.entry == k
        &&& (exists|p: int|
            0 <= p < text.len() && !is_white(text[p]) && (forall|q: int| 0 <= q < p ==> is_white(#[trigger] text[q]))
                && m.line == newlines(text.take(p)))
            || ((forall|q: int| 0 <= q < text.len() ==> is_white(#[trigger] text[q])) && m.line == 0)
    } by {
        let m = matches_for(entries, seq![])[k];
        let text = entries[k].text;
        assert(entries[k] == entries[k]);
        assert(match_line(entries[m.entry as int].text, seq![]) is Some);
        lemma_first_non_white(text, 0);
        match first_non_white(text, 0) {
            Some(p) => {
                lemma_newlines_bound(text.take(p as int));
                assert(m.line == newlines(text.take(p as int)));
            },
            None => {},
        }
    }
}

/// A search with an uppercase letter anywhere in it is exact: an entry
/// matches exactly when it holds the search as it is, never in another
/// case, and its line is the one where the search first occurs.
pub proof fn lemma_uppercase_search_is_exact(v: AppView, query: Seq<char>, i: int)
    requires
        v.well_formed(),
        forall|e: int| 0 <= e < v.entries.len() ==> (#[trigger] v.entries[e]).text.len() <= usize::MAX,
        0 <= i < query.len(),
        is_uppercase(query[i]),
    ensures
        forall|k: int| 0 <= k < v.search(query).matches.len() ==> {
            let m = #[trigger] v.search(query).matches[k];
            let text = v.entries[m.entry as int].text;
            &&& m.entry < v.entries.len()
            &&& first_occurrence(text, query) matches Some(at) && m.line == newlines(text.take(at as int))
        },
        forall|e: int| 0 <= e < v.entries.len() && (#[trigger] first_occurrence(v.entries[e].text, query)) is Some
            ==> exists|k: int| 0 <= k < v.search(query).matches.len() && (#[trigger] v.search(query).matches[k]).entry == e,
{
    lemma_matches(v.entries, query);
    assert(case_sensitive(query));
    let ms = v.search(query).matches;
    assert(ms == matches_for(v.entries, query));
    assert forall|k: int| 0 <= k < ms.len() implies {
        let m = #[trigger] ms[k];
        let text = v.entries[m.entry as int].text;
        &&& m.entry < v.entries.len()
        &&& first_occurrence(text, query) matches Some(at) && m.line == newlines(text.take(at as int))
    } by {
        let m = ms[k];
        let text = v.entries[m.entry as int].text;
        assert(match_line(text, query) is Some);
        lemma_occurrence(text, query, 0);
        if let Some(at) = first_occurrence(text, query) {
            lemma_newlines_bound(text.take(at as int));
        }
    }
    assert forall|e: int| 0 <= e < v.entries.len() && (#[trigger] first_occurrence(v.entries[e].text, query)) is Some
        implies exists|k: int| 0 <= k < ms.len() && (#[trigger] ms[k]).entry == e by {
        assert(match_line(v.entries[e].text, query) is Some);
    }
}

/// Moving the selection shows where the newly selected match is: the
/// selection goes to the match `delta` away, held within the list, and the
/// preview scrolls to that match's line with `MATCH_CONTEXT` lines above it
/// where there are that many, or to the top with nothing searched for.
pub proof fn lemma_move_scrolls_to_match(v: AppView, delta: int)
    requires
        v.well_formed(),
        v.selected is Some,
    ensures
        ({
            let i = v.selected.unwrap() as int;
            let n = v.matches.len() as int;
            let j = if i + delta < 0 {
                0
            } else if i + delta >= n {
                n - 1
            } else {
                i + delta
            };
            let w = v.move_by(delta);
            let line = v.matches[j].line as int;
            &&& w.selected == Some(j as nat)
            &&& w.matches == v.matches
            &&& w.query == v.query
            &&& w.scroll == (if v.query.len() == 0 {
                0
            } else if line >= MATCH_CONTEXT {
                line - MATCH_CONTEXT
            } else {
                0
            })
        }),
{
    lemma_matches(v.entries, v.query);
}

/// Searching selects the first match and shows where it is: the preview
/// scrolls to its line with `MATCH_CONTEXT` lines above it where there are
/// that many, or to the top with nothing searched for.
pub proof fn lemma_search_scrolls_to_first_match(v: AppView, query: Seq<char>)
    requires
        v.well_formed(),
    ensures
        ({
            let w = v.search(query);
            &&& w.query == query
            &&& (w.matches.len() > 0 ==> w.selected == Some(0nat) && w.scroll == (if query.len() == 0 {
                0
            } else if w.matches[0].line >= MATCH_CONTEXT {
                w.matches[0].line - MATCH_CONTEXT
            } else {
                0
            }))
            &&& (w.matches.len() == 0 ==> w.selected is None)
        }),
{
}

/// A search without uppercase letters cannot tell apart texts that have the
/// same lowercase form.
pub proof fn lemma_smart_case(a: Seq<char>, b: Seq<char>, query: Seq<char>)
    requires
        !case_sensitive(query),
        str_lowercase(a) == str_lowercase(b),
    ensures
        match_line(a, query) is Some <==> match_line(b, query) is Some,
{
    if query.len() == 0 {
    }
}

proof fn lemma_trim_end_word_prefix(s: Seq<char>)
    ensures
        trim_end_word(s).len() <= s.len(),
        s.take(trim_end_word(s).len() as int) == trim_end_word(s),
    decreases s.len(),
{
    if s.len() > 0 && !is_white(s.last()) {
        lemma_trim_end_word_prefix(s.drop_last());
        assert(s.drop_last().take(trim_end_word(s).len() as int) =~= s.take(trim_end_word(s).len() as int));
    } else {
        assert(s.take(s.len() as int) =~= s);
    }
}

/// The state of `cb peek`.
pub struct App {
    /// The most recent first.
    entries: Vec<Entry>,
    /// The chars of each entry.
    texts: Vec<Vec<char>>,
    /// The chars of each entry's lowercase form, for case-insensitive search.
    lowercase: Vec<Vec<char>>,
    query: Vec<char>,
    matches: Vec<Match>,
    selected: Option<usize>,
    /// The first preview line on screen.
    scroll: usize,
    /// Lines of preview on screen at the last draw, for paging.
    preview_height: u16,
    /// Lines in the preview drawn last.
    preview_lines: usize,
}

impl View for App {
    type V = AppView;

    closed spec fn view(&self) -> AppView {
        AppView {
            entries: views(self.entries@),
            query: self.query@,
            matches: self.matches@,
            selected: match self.selected {
                Some(i) => Some(i as nat),
                None => None,
            },
            scroll: self.scroll as nat,
            preview_height: self.preview_height as nat,
            preview_lines: self.preview_lines as nat,
        }
    }
}

/// `a` moved by `delta`, held within what a `usize` can hold.
fn add_signed(a: usize, delta: isize) -> (r: usize)
    ensures
        r == clamp_usize(a + delta),
{
    if delta >= 0 {
        a.saturating_add(delta as usize)
    } else {
        let less = (-(delta + 1)) as usize + 1;
        a.saturating_sub(less)
    }
}

/// Whether the search has an uppercase letter.
fn is_case_sensitive(query: &[char]) -> (r: bool)
    ensures
        r == case_sensitive(query@),
{
    let mut i: usize = 0;
    while i < query.len()
        invariant
            i <= query@.len(),
            forall|j: int| 0 <= j < i ==> !is_uppercase(#[trigger] query@[j]),
        decreases query@.len() - i,
    {
        if is_upper(query[i]) {
            return true;
        }
        i = i + 1;
    }
    false
}

impl App {
    /// The chars kept beside the entries are theirs, and the view is well formed.
    pub closed spec fn wf(&self) -> bool {
        &&& self.texts@.len() == self.entries@.len()
        &&& self.lowercase@.len() == self.entries@.len()
        &&& forall|i: int| 0 <= i < self.entries@.len() ==> #[trigger] self.texts@[i]@ == self.entries@[i].text@
        &&& forall|i: int| 0 <= i < self.entries@.len() ==> #[trigger] self.lowercase@[i]@ == str_lowercase(self.entries@[i].text@)
        &&& self@.well_formed()
    }

    /// The matches for `query`, in the order of the entries.
    fn search_matches(&self, query: &Vec<char>) -> (r: Vec<Match>)
        requires
            self.texts@.len() == self.entries@.len(),
            self.lowercase@.len() == self.entries@.len(),
            forall|i: int| 0 <= i < self.entries@.len() ==> #[trigger] self.texts@[i]@ == self.entries@[i].text@,
            forall|i: int| 0 <= i < self.entries@.len() ==> #[trigger] self.lowercase@[i]@ == str_lowercase(self.entries@[i].text@),
        ensures
            r@ == matches_for(views(self.entries@), query@),
    {
        let sensitive = is_case_sensitive(query.as_slice());
        let folded: Vec<char> = if sensitive {
            Vec::new()
        } else {
            chars_of(to_lowercase(string_of(query.as_slice()).as_str()).as_str())
        };
        let ghost es = views(self.entries@);
        let n = self.entries.len();
        let mut found: Vec<Match> = Vec::new();
        let mut i: usize = 0;
        while i < n
            invariant
                n == self.entries@.len(),
                es == views(self.entries@),
                i <= n,
                sensitive == case_sensitive(query@),
                !sensitive ==> folded@ == str_lowercase(query@),
                self.texts@.len() == n,
                self.lowercase@.len() == n,
                forall|k: int| 0 <= k < n ==> #[trigger] self.texts@[k]@ == self.entries@[k].text@,
                forall|k: int| 0 <= k < n ==> #[trigger] self.lowercase@[k]@ == str_lowercase(self.entries@[k].text@),
                found@ == matches_upto(es, query@, i as nat),
            decreases n - i,
        {
            assert(es[i as int] == self.entries@[i as int]@);
            let text = &self.texts[i];
            if query.len() == 0 {
                let line = first_nonblank_line(text.as_slice());
                found.push(Match { entry: i, line });
            } else {
                let hay = if sensitive {
                    self.texts[i].as_slice()
                } else {
                    self.lowercase[i].as_slice()
                };
                let wanted = if sensitive {
                    query.as_slice()
                } else {
                    folded.as_slice()
                };
                match find_chars(hay, wanted) {
                    Some(at) => {
                        proof {
                            lemma_occurrence(hay@, wanted@, 0);
                        }
                        let line = count_newlines(hay, at);
                        found.push(Match { entry: i, line });
                    },
                    None => {},
                }
            }
            i = i + 1;
        }
        found
    }

    /// Selects match `index`, or the last if there are fewer.
    fn select(&mut self, index: usize)
        ensures
            final(self)@ == old(self)@.select(index as nat),
            final(self).entries == old(self).entries,
            final(self).texts == old(self).texts,
            final(self).lowercase == old(self).lowercase,
    {
        if self.matches.len() == 0 {
            self.selected = None;
            return;
        }
        let last = self.matches.len() - 1;
        let i = if index < last {
            index
        } else {
            last
        };
        self.selected = Some(i);
        self.scroll = if self.query.len() == 0 {
            0
        } else {
            self.matches[i].line.saturating_sub(MATCH_CONTEXT)
        };
    }

    /// Finds the entries that match the search, keeping them in order, and
    /// selects the first.
    fn filter(&mut self)
        requires
            old(self).texts@.len() == old(self).entries@.len(),
            old(self).lowercase@.len() == old(self).entries@.len(),
            forall|i: int| 0 <= i < old(self).entries@.len() ==> #[trigger] old(self).texts@[i]@ == old(self).entries@[i].text@,
            forall|i: int| 0 <= i < old(self).entries@.len() ==> #[trigger] old(self).lowercase@[i]@ == str_lowercase(old(self).entries@[i].text@),
            old(self)@.scroll <= usize::MAX,
            old(self)@.preview_height <= u16::MAX,
            old(self)@.preview_lines <= usize::MAX,
        ensures
            final(self).wf(),
            final(self)@ == old(self)@.search(old(self)@.query),
    {
        let found = self.search_matches(&self.query);
        self.matches = found;
        let count = self.entries.len();
        assert(views(self.entries@).len() == count);
        self.select(0);
    }

    /// Moves the selection by `delta`, stopping at the ends.
    fn move_by(&mut self, delta: isize)
        ensures
            final(self)@ == old(self)@.move_by(delta as int),
            final(self).entries == old(self).entries,
            final(self).texts == old(self).texts,
            final(self).lowercase == old(self).lowercase,
    {
        if let Some(index) = self.selected {
            self.select(add_signed(index, delta));
        }
    }

    /// Scrolls the preview by `delta` lines, no further than its last page.
    fn scroll_by(&mut self, delta: isize)
        ensures
            final(self)@ == old(self)@.scroll_by(delta as int),
            final(self).entries == old(self).entries,
            final(self).texts == old(self).texts,
            final(self).lowercase == old(self).lowercase,
    {
        let most = self.preview_lines.saturating_sub(self.preview_height as usize);
        let moved = add_signed(self.scroll, delta);
        self.scroll = if moved < most {
            moved
        } else {
            most
        };
    }

    /// Handles a key press. Searching again selects the first match.
    pub fn on_key(&mut self, key: Key) -> (r: Outcome)
        requires
            old(self).wf(),
        ensures
            final(self).wf(),
            match command(key) {
                Command::Quit => r == Outcome::Quit && final(self)@ == old(self)@,
                Command::Pick => final(self)@ == old(self)@ && r == match old(self)@.selected {
                    Some(i) => Outcome::Copy(old(self)@.matches[i as int].entry),
                    None => Outcome::Continue,
                },
                Command::MoveBy(delta) => r == Outcome::Continue && final(self)@ == old(
                    self,
                )@.move_by(delta),
                Command::ScrollBy(delta) => r == Outcome::Continue && final(self)@ == old(
                    self,
                )@.scroll_by(delta),
                Command::PageUp => r == Outcome::Continue && final(self)@ == old(self)@.scroll_by(
                    -old(self)@.page(),
                ),
                Command::PageDown => r == Outcome::Continue && final(self)@ == old(
                    self,
                )@.scroll_by(old(self)@.page()),
                Command::DeleteChar => r == Outcome::Continue && final(self)@ == if old(
                    self,
                )@.query.len() > 0 {
                    old(self)@.search(old(self)@.query.drop_last())
                } else {
                    old(self)@
                },
                Command::DeleteWord => r == Outcome::Continue && final(self)@ == old(self)@.search(
                    without_last_word(old(self)@.query),
                ),
                Command::ClearSearch => r == Outcome::Continue && final(self)@ == old(
                    self,
                )@.search(seq![]),
                Command::Type(c) => r == Outcome::Continue && final(self)@ == old(self)@.search(
                    old(self)@.query.push(c),
                ),
                Command::Ignore => r == Outcome::Continue && final(self)@ == old(self)@,
            },
    {
        let ctrl = key.ctrl;
        let shift = key.shift;
        let page: isize = if self.preview_height == 0 {
            1
        } else {
            self.preview_height as isize
        };
        match key.code {
            KeyCode::Esc => {
                return Outcome::Quit;
            },
            KeyCode::Enter => {
                if let Some(i) = self.selected {
                    return Outcome::Copy(self.matches[i].entry);
                }
            },
            KeyCode::Up => {
                if shift {
                    self.scroll_by(-1);
                } else {
                    self.move_by(-1);
                }
            },
            KeyCode::Down => {
                if shift {
                    self.scroll_by(1);
                } else {
                    self.move_by(1);
                }
            },
            KeyCode::PageUp => {
                self.scroll_by(-page);
            },
            KeyCode::PageDown => {
                self.scroll_by(page);
            },
            KeyCode::Backspace => {
                if self.query.pop().is_some() {
                    self.filter();
                }
            },
            KeyCode::Char(c) => {
                if ctrl && (c == 'c' || c == 'g') {
                    return Outcome::Quit;
                } else if ctrl && (c == 'r' || c == 'n') {
                    self.move_by(1);
                } else if ctrl && (c == 's' || c == 'p') {
                    self.move_by(-1);
                } else if ctrl && c == 'u' {
                    self.query.clear();
                    self.filter();
                } else if ctrl && c == 'w' {
                    let len = self.query.len();
                    let trimmed = trimmed_end_len(self.query.as_slice(), len);
                    let kept = word_trimmed_len(self.query.as_slice(), trimmed);
                    proof {
                        assert(self.query@.take(len as int) =~= self.query@);
                        assert(self.query@.take(trimmed as int).take(kept as int) =~= self.query@.take(kept as int));
                        lemma_trim_end_word_prefix(self.query@.take(trimmed as int));
                    }
                    self.query.truncate(kept);
                    self.filter();
                } else if !ctrl || key.alt {
                    self.query.push(c);
                    self.filter();
                }
            },
            KeyCode::Other => {},
        }
        Outcome::Continue
    }

    /// Notes the preview drawn at the last draw: `height` lines high, and, if
    /// a match is selected, `lines` long, keeping it from scrolling past its end.
    pub fn show_preview(&mut self, height: u16, lines: Option<usize>)
        requires
            old(self).wf(),
        ensures
            final(self).wf(),
            final(self)@ == old(self)@.show(
                height as nat,
                match lines {
                    Some(n) => Some(n as nat),
                    None => None,
                },
            ),
    {
        self.preview_height = height;
        if let Some(n) = lines {
            self.preview_lines = n;
            let most = n.saturating_sub(height as usize);
            if self.scroll > most {
                self.scroll = most;
            }
        }
    }

    /// The entries, most recent first.
    pub fn entries(&self) -> (r: &Vec<Entry>)
        ensures
            views(r@) == self@.entries,
    {
        &self.entries
    }

    /// The matches for the search, in the order of the entries.
    pub fn matches(&self) -> (r: &Vec<Match>)
        ensures
            r@ == self@.matches,
    {
        &self.matches
    }

    /// Where the selected match is in the list.
    pub fn selected_index(&self) -> (r: Option<usize>)
        ensures
            match r {
                Some(i) => self@.selected == Some(i as nat),
                None => self@.selected is None,
            },
    {
        self.selected
    }

    /// The selected match, if any.
    pub fn selected(&self) -> (r: Option<Match>)
        requires
            self.wf(),
        ensures
            r == match self@.selected {
                Some(i) => Some(self@.matches[i as int]),
                None => None,
            },
    {
        match self.selected {
            Some(i) => Some(self.matches[i]),
            None => None,
        }
    }

    /// Whether the search tells upper and lower case apart: whether it has an
    /// uppercase letter.
    pub fn case_sensitive(&self) -> (r: bool)
        ensures
            r == case_sensitive(self@.query),
    {
        is_case_sensitive(self.query.as_slice())
    }

    /// The search.
    pub fn query(&self) -> (r: String)
        ensures
            r@ == self@.query,
    {
        string_of(self.query.as_slice())
    }

    /// The first preview line on screen.
    pub fn scroll(&self) -> (r: usize)
        ensures
            r == self@.scroll,
    {
        self.scroll
    }

    /// Takes entry `index` out of the app, once the user has picked it.
    pub fn pick(self, index: usize) -> (r: Option<Entry>)
        ensures
            r is Some <==> index < self@.entries.len(),
            r matches Some(e) ==> e@ == self@.entries[index as int],
    {
        if index < self.entries.len() {
            let mut entries = self.entries;
            assert(views(entries@)[index as int] == entries@[index as int]@);
            Some(entries.swap_remove(index))
        } else {
            None
        }
    }

    /// The app for `entries`, given oldest first: the most recent comes
    /// first, and with nothing searched for every entry matches.
    pub fn new(entries: Vec<Entry>) -> (r: App)
        ensures
            r.wf(),
            r@ == (AppView {
                entries: views(entries@).reverse(),
                query: seq![],
                matches: seq![],
                selected: None,
                scroll: 0,
                preview_height: 0,
                preview_lines: 0,
            }).search(seq![]),
    {
        let ghost given = entries@;
        let mut older = entries;
        let mut newest_first: Vec<Entry> = Vec::new();
        let mut texts: Vec<Vec<char>> = Vec::new();
        let mut lowercase: Vec<Vec<char>> = Vec::new();
        while older.len() > 0
            invariant
                older@ == given.take(older@.len() as int),
                newest_first@.len() + older@.len() == given.len(),
                forall|i: int| 0 <= i < newest_first@.len() ==> #[trigger] newest_first@[i] == given[given.len() - 1 - i],
                texts@.len() == newest_first@.len(),
                lowercase@.len() == newest_first@.len(),
                forall|i: int| 0 <= i < newest_first@.len() ==> #[trigger] texts@[i]@ == newest_first@[i].text@,
                forall|i: int| 0 <= i < newest_first@.len() ==> #[trigger] lowercase@[i]@ == str_lowercase(newest_first@[i].text@),
            decreases older@.len(),
        {
            let entry = older.pop().unwrap();
            texts.push(chars_of(entry.text.as_str()));
            lowercase.push(chars_of(to_lowercase(entry.text.as_str()).as_str()));
            newest_first.push(entry);
            assert(older@ =~= given.take(older@.len() as int));
        }
        assert(views(newest_first@) =~= views(given).reverse());
        let mut app = App {
            entries: newest_first,
            texts,
            lowercase,
            query: Vec::new(),
            matches: Vec::new(),
            selected: None,
            scroll: 0,
            preview_height: 0,
            preview_lines: 0,
        };
        app.filter();
        app
    }
}

/// Whether `c` is a control char, Unicode's general category `Cc`.
pub open spec fn is_control(c: char) -> bool {
    (c as u32) < 0x20 || (0x7f <= (c as u32) && (c as u32) < 0xa0)
}

/// How `c` is drawn: a tab as four spaces, any other control char, which a
/// terminal would act on, as the replacement character, and the rest as it is.
pub open spec fn drawn_char(c: char) -> Seq<char> {
    if c == '\t' {
        seq![' ', ' ', ' ', ' ']
    } else if is_control(c) {
        seq!['\u{fffd}']
    } else {
        seq![c]
    }
}

/// Each char of `s` as `drawn_char` draws it.
pub open spec fn drawn(s: Seq<char>) -> Seq<char>
    decreases s.len(),
{
    if s.len() == 0 {
        seq![]
    } else {
        drawn(s.drop_last()) + drawn_char(s.last())
    }
}

/// `text` as it is safe to draw on a terminal: escape sequences in entries
/// are shown, not obeyed.
pub fn displayable(text: &str) -> (r: String)
    ensures
        r@ == drawn(text@),
{
    let chars = chars_of(text);
    let mut out: Vec<char> = Vec::new();
    let mut i: usize = 0;
    assert(chars@.take(0) =~= Seq::<char>::empty());
    while i < chars.len()
        invariant
            chars@ == text@,
            i <= chars@.len(),
            out@ == drawn(chars@.take(i as int)),
        decreases chars@.len() - i,
    {
        let c = chars[i];
        assert(chars@.take(i + 1).drop_last() =~= chars@.take(i as int));
        let ghost before = out@;
        let u = c as u32;
        if c == '\t' {
            out.push(' ');
            out.push(' ');
            out.push(' ');
            out.push(' ');
        } else if u < 0x20 || (0x7f <= u && u < 0xa0) {
            out.push('\u{fffd}');
        } else {
            out.push(c);
        }
        assert(out@ =~= before + drawn_char(c));
        i = i + 1;
    }
    assert(chars@.take(chars@.len() as int) =~= chars@);
    string_of(out.as_slice())
}

/// Nothing drawn is a control char that a terminal would act on.
pub proof fn lemma_drawn_is_harmless(s: Seq<char>)
    ensures
        forall|i: int| 0 <= i < drawn(s).len() ==> !is_control(#[trigger] drawn(s)[i]),
    decreases s.len(),
{
    if s.len() > 0 {
        lemma_drawn_is_harmless(s.drop_last());
        let before = drawn(s.drop_last());
        let last = drawn_char(s.last());
        assert forall|i: int| 0 <= i < drawn(s).len() implies !is_control(#[trigger] drawn(s)[i]) by {
            if i < before.len() {
                assert(drawn(s)[i] == before[i]);
            } else {
                assert(drawn(s)[i] == last[i - before.len()]);
            }
        }
    }
}

proof fn lemma_prefix_bytes_grow(h: Seq<char>, i: int, j: int)
    requires
        0 <= i <= j <= h.len(),
    ensures
        bytes_len(h.take(i)) <= bytes_len(h.take(j)) <= bytes_len(h),
{
    lemma_prefix_bytes(h.take(j), i);
    assert(h.take(j).take(i) =~= h.take(i));
    lemma_prefix_bytes(h, j);
}

/// What `find` finds lies within the haystack, start before end; searching
/// case-sensitively, its bytes are the needle's.
pub proof fn lemma_found_within(haystack: Seq<char>, needle: Seq<char>, case_sensitive: bool)
    ensures
        found(haystack, needle, case_sensitive) matches Some((start, end)) ==> start <= end
            <= bytes_len(haystack),
        case_sensitive ==> (found(haystack, needle, case_sensitive) matches Some((start, end))
            ==> encode_utf8(haystack).subrange(start as int, end as int) == encode_utf8(needle)),
{
    if needle.len() > 0 {
        if case_sensitive {
            lemma_occurrence(haystack, needle, 0);
            if let Some(at) = first_occurrence(haystack, needle) {
                let before = haystack.take(at as int);
                let after = haystack.skip((at + needle.len()) as int);
                assert(haystack =~= before + needle + after);
                lemma_encode_concat(before + needle, after);
                lemma_encode_concat(before, needle);
                lemma_prefix_bytes(haystack, (at + needle.len()) as int);
                assert(before + needle =~= haystack.take((at + needle.len()) as int));
                assert(encode_utf8(haystack).subrange(
                    bytes_len(before) as int,
                    (bytes_len(before) + bytes_len(needle)) as int,
                ) =~= encode_utf8(needle));
            }
        } else {
            lemma_folded_from(haystack, lowered(needle), 0);
            if let Some((s, k)) = folded_match_from(haystack, lowered(needle), 0) {
                lemma_covering_bound(haystack, s, lowered(needle).len(), 0);
                lemma_prefix_bytes_grow(haystack, s as int, (s + k) as int);
            }
        }
    }
}

proof fn lemma_folded_from(h: Seq<char>, n: Seq<char>, s: nat)
    ensures
        folded_match_from(h, n, s) matches Some((t, k)) ==> folded_match_at(h, n, t) == Some(k) && t < h.len(),
    decreases h.len() - s,
{
    if s < h.len() && folded_match_at(h, n, s) is None {
        lemma_folded_from(h, n, s + 1);
    }
}

/// The end of the line that holds position `i`: the next line feed, or the end.
pub open spec fn line_end(text: Seq<char>, i: nat) -> nat
    decreases text.len() - i,
{
    if i >= text.len() || text[i as int] == '\n' {
        i
    } else {
        line_end(text, i + 1)
    }
}

/// Where line `n` of `text` starts, if it has that many.
pub open spec fn line_start(text: Seq<char>, n: nat) -> Option<nat>
    decreases n,
{
    if n == 0 {
        Some(0)
    } else {
        match line_start(text, (n - 1) as nat) {
            Some(s) => if line_end(text, s) < text.len() {
                Some(line_end(text, s) + 1)
            } else {
                None
            },
            None => None,
        }
    }
}

/// Line `n` of `text`, without its line feed; empty if there is no such line.
pub open spec fn line_text(text: Seq<char>, n: nat) -> Seq<char> {
    match line_start(text, n) {
        Some(s) => text.subrange(s as int, line_end(text, s) as int),
        None => seq![],
    }
}

proof fn lemma_no_line_after(text: Seq<char>, k: nat, n: nat)
    requires
        k <= n,
        line_start(text, k) is None,
    ensures
        line_start(text, n) is None,
    decreases n - k,
{
    if k < n {
        lemma_no_line_after(text, k + 1, n);
    }
}

/// The end of the line that holds position `i`.
fn find_line_end(text: &[char], i: usize) -> (r: usize)
    requires
        i <= text@.len(),
    ensures
        r == line_end(text@, i as nat),
        i <= r <= text@.len(),
{
    let mut j = i;
    while j < text.len() && text[j] != '\n'
        invariant
            i <= j <= text@.len(),
            line_end(text@, i as nat) == line_end(text@, j as nat),
        decreases text@.len() - j,
    {
        j = j + 1;
    }
    j
}

/// Line `n` of `text`, trimmed, as the list shows it for a match.
pub fn shown_line(text: &str, n: usize) -> (r: String)
    ensures
        r@ == trim_white(line_text(text@, n as nat)),
{
    let chars = chars_of(text);
    let mut start: usize = 0;
    let mut k: usize = 0;
    while k < n
        invariant
            k <= n,
            chars@ == text@,
            line_start(chars@, k as nat) == Some(start as nat),
            start <= chars@.len(),
        decreases n - k,
    {
        let end = find_line_end(chars.as_slice(), start);
        if end >= chars.len() {
            proof {
                assert(line_start(chars@, (k + 1) as nat) is None);
                lemma_no_line_after(chars@, (k + 1) as nat, n as nat);
                assert(line_text(chars@, n as nat) =~= Seq::<char>::empty());
                assert(trim_end_white(Seq::<char>::empty()) =~= Seq::<char>::empty());
                assert(trim_start_white(Seq::<char>::empty()) =~= Seq::<char>::empty());
            }
            assert(trim_white(seq![]) =~= Seq::<char>::empty());
            return String::new();
        }
        start = end + 1;
        k = k + 1;
    }
    let end = find_line_end(chars.as_slice(), start);
    let line = &chars.as_slice()[start..end];
    let trimmed_end = trimmed_end_len(line, line.len());
    let first = trimmed_start(line, 0, trimmed_end);
    proof {
        assert(line@.take(line@.len() as int) =~= line@);
        assert(line@.subrange(0, trimmed_end as int) =~= line@.take(trimmed_end as int));
    }
    string_of(&line[first..trimmed_end])
}

} // verus!
