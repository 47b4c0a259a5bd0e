//! Characters and strings: whitespace, line numbers, substring search and
//! decimal numbers, stated over `Seq<char>`.

use vstd::prelude::*;
use vstd::utf8::{decode_utf8, encode_utf8, encode_utf8_decode_utf8};

verus! {

/// Unicode's `White_Space` property, which `char::is_whitespace` tests.
pub open spec fn is_white(c: char) -> bool {
    let u = c as u32;
    ||| 0x09 <= u <= 0x0d
    ||| u == 0x20
    ||| u == 0x85
    ||| u == 0xa0
    ||| u == 0x1680
    ||| 0x2000 <= u <= 0x200a
    ||| u == 0x2028
    ||| u == 0x2029
    ||| u == 0x202f
    ||| u == 0x205f
    ||| u == 0x3000
}

/// Whether `c` is whitespace, as `char::is_whitespace` decides.
pub fn is_whitespace(c: char) -> (r: bool)
    ensures
        r == is_white(c),
{
    let u = c as u32;
    (0x09 <= u && u <= 0x0d) || u == 0x20 || u == 0x85 || u == 0xa0 || u == 0x1680 || (0x2000
        <= u && u <= 0x200a) || u == 0x2028 || u == 0x2029 || u == 0x202f || u == 0x205f || u
        == 0x3000
}

/// Whether two byte strings are equal.
pub fn bytes_equal(a: &[u8], b: &[u8]) -> (r: bool)
    ensures
        r == (a@ == b@),
{
    if a.len() != b.len() {
        return false;
    }
    let mut i: usize = 0;
    while i < a.len()
        invariant
            a@.len() == b@.len(),
            i <= a@.len(),
            forall|k: int| 0 <= k < i ==> a@[k] == b@[k],
        decreases a@.len() - i,
    {
        if a[i] != b[i] {
            return false;
        }
        i = i + 1;
    }
    assert(a@ =~= b@);
    true
}

/// Whether two strings hold the same chars.
pub fn same_text(a: &str, b: &str) -> (r: bool)
    ensures
        r == (a@ == b@),
{
    let r = bytes_equal(a.as_bytes(), b.as_bytes());
    proof {
        encode_utf8_decode_utf8(a@);
        encode_utf8_decode_utf8(b@);
    }
    r
}

/// What `str::to_lowercase` gives for a string.
pub uninterp spec fn str_lowercase(s: Seq<char>) -> Seq<char>;

/// What `char::to_lowercase` yields for a char.
pub uninterp spec fn char_lowercase(c: char) -> Seq<char>;

/// Whether `char::is_uppercase` holds of a char.
pub uninterp spec fn is_uppercase(c: char) -> bool;

/// `str::to_lowercase`: the lowercase form of a string, by Unicode's tables.
#[verifier::external_body]
pub(crate) fn to_lowercase(s: &str) -> (r: String)
    ensures
        r@ == str_lowercase(s@),
{
    s.to_lowercase()
}

/// `char::to_lowercase`: the lowercase form of a char, which its
/// documentation says is one or more chars.
#[verifier::external_body]
pub(crate) fn char_to_lowercase(c: char) -> (r: Vec<char>)
    ensures
        r@ == char_lowercase(c),
        r@.len() >= 1,
{
    c.to_lowercase().collect()
}

/// `char::is_uppercase`: whether a char has Unicode's `Uppercase` property.
#[verifier::external_body]
pub(crate) fn is_upper(c: char) -> (r: bool)
    ensures
        r == is_uppercase(c),
{
    c.is_uppercase()
}

/// `s` without its trailing whitespace, as `str::trim_end` leaves it.
pub open spec fn trim_end_white(s: Seq<char>) -> Seq<char>
    decreases s.len(),
{
    if s.len() > 0 && is_white(s.last()) {
        trim_end_white(s.drop_last())
    } else {
        s
    }
}

/// `s` without the chars that aren't whitespace at its end.
pub open spec fn trim_end_word(s: Seq<char>) -> Seq<char>
    decreases s.len(),
{
    if s.len() > 0 && !is_white(s.last()) {
        trim_end_word(s.drop_last())
    } else {
        s
    }
}

/// `s` without its leading whitespace, as `str::trim_start` leaves it.
pub open spec fn trim_start_white(s: Seq<char>) -> Seq<char>
    decreases s.len(),
{
    if s.len() > 0 && is_white(s[0]) {
        trim_start_white(s.drop_first())
    } else {
        s
    }
}

/// `s` without whitespace at either end, as `str::trim` leaves it.
pub open spec fn trim_white(s: Seq<char>) -> Seq<char> {
    trim_start_white(trim_end_white(s))
}

/// How long `s` is once `trim_end_white` has been applied.
pub fn trimmed_end_len(s: &[char], end: usize) -> (r: usize)
    requires
        end <= s@.len(),
    ensures
        r <= end,
        s@.take(r as int) == trim_end_white(s@.take(end as int)),
    decreases end,
{
    if end > 0 && is_whitespace(s[end - 1]) {
        assert(s@.take(end as int).drop_last() =~= s@.take(end - 1));
        trimmed_end_len(s, end - 1)
    } else {
        end
    }
}

/// How long `s` is once the word at its end has been dropped.
pub fn word_trimmed_len(s: &[char], end: usize) -> (r: usize)
    requires
        end <= s@.len(),
    ensures
        r <= end,
        s@.take(r as int) == trim_end_word(s@.take(end as int)),
    decreases end,
{
    if end > 0 && !is_whitespace(s[end - 1]) {
        assert(s@.take(end as int).drop_last() =~= s@.take(end - 1));
        word_trimmed_len(s, end - 1)
    } else {
        end
    }
}

/// How many chars of whitespace `s` begins with, from `start` up to `end`.
pub fn trimmed_start(s: &[char], start: usize, end: usize) -> (r: usize)
    requires
        start <= end <= s@.len(),
    ensures
        start <= r <= end,
        s@.subrange(r as int, end as int) == trim_start_white(s@.subrange(start as int, end as int)),
    decreases end - start,
{
    if start < end && is_whitespace(s[start]) {
        assert(s@.subrange(start as int, end as int).drop_first() =~= s@.subrange(start + 1, end as int));
        trimmed_start(s, start + 1, end)
    } else {
        start
    }
}

/// How many line feeds `s` holds.
pub open spec fn newlines(s: Seq<char>) -> nat
    decreases s.len(),
{
    if s.len() == 0 {
        0
    } else {
        newlines(s.drop_last()) + if s.last() == '\n' {
            1nat
        } else {
            0nat
        }
    }
}

/// The first position at or after `i` where `n` occurs in `h`.
pub open spec fn occurrence_from(h: Seq<char>, n: Seq<char>, i: nat) -> Option<nat>
    decreases h.len() - i,
{
    if i + n.len() > h.len() {
        None
    } else if h.subrange(i as int, (i + n.len()) as int) =~= n {
        Some(i)
    } else {
        occurrence_from(h, n, i + 1)
    }
}

/// Where `n` first occurs in `h`, counted in chars, as `str::find` finds it.
pub open spec fn first_occurrence(h: Seq<char>, n: Seq<char>) -> Option<nat> {
    occurrence_from(h, n, 0)
}

/// The chars of `s`.
pub fn chars_of(s: &str) -> (r: Vec<char>)
    ensures
        r@ == s@,
{
    broadcast use vstd::string::group_string_axioms;

    let mut out: Vec<char> = Vec::new();
    for c in it: s.chars()
        invariant
            it.seq() == s@,
            out@ == it.seq().take(it.index()),
    {
        assert(it.seq().take(it.index() + 1) =~= it.seq().take(it.index()).push(c));
        out.push(c);
    }
    assert(s@.take(s@.len() as int) =~= s@);
    out
}

/// The string made of `chars`.
#[verifier::external_body]
pub(crate) fn string_of(chars: &[char]) -> (r: String)
    ensures
        r@ == chars@,
{
    chars.iter().collect()
}

/// How many line feeds come before position `end` of `s`.
pub fn count_newlines(s: &[char], end: usize) -> (r: usize)
    requires
        end <= s@.len(),
    ensures
        r == newlines(s@.take(end as int)),
        r <= end,
        end > 0 && s@[end - 1] != '\n' ==> r < end,
{
    let mut count: usize = 0;
    let mut i: usize = 0;
    while i < end
        invariant
            i <= end <= s@.len(),
            count == newlines(s@.take(i as int)),
            count <= i,
            i > 0 && s@[i - 1] != '\n' ==> count < i,
        decreases end - i,
    {
        assert(s@.take(i + 1).drop_last() =~= s@.take(i as int));
        if s[i] == '\n' {
            count = count + 1;
        }
        i = i + 1;
    }
    count
}

/// Whether `n` occurs in `h` at position `at`.
fn occurs_at(h: &[char], n: &[char], at: usize) -> (r: bool)
    requires
        at + n@.len() <= h@.len(),
    ensures
        r == (h@.subrange(at as int, at + n@.len()) =~= n@),
{
    let hl = h.len();
    let mut j: usize = 0;
    while j < n.len()
        invariant
            at + n@.len() <= h@.len(),
            hl == h@.len(),
            j <= n@.len(),
            forall|k: int| 0 <= k < j ==> h@[at + k] == n@[k],
        decreases n@.len() - j,
    {
        assert(at + j < h@.len());
        if h[at + j] != n[j] {
            return false;
        }
        j = j + 1;
    }
    true
}

/// Where `n` first occurs in `h`, counted in chars.
pub fn find_chars(h: &[char], n: &[char]) -> (r: Option<usize>)
    ensures
        r matches Some(i) ==> first_occurrence(h@, n@) == Some(i as nat),
        r is None ==> first_occurrence(h@, n@) is None,
{
    if n.len() > h.len() {
        return None;
    }
    let last = h.len() - n.len();
    let mut i: usize = 0;
    loop
        invariant
            last + n@.len() == h@.len(),
            i <= last,
            first_occurrence(h@, n@) == occurrence_from(h@, n@, i as nat),
        decreases last - i,
    {
        if occurs_at(h, n, i) {
            return Some(i);
        }
        if i == last {
            assert(occurrence_from(h@, n@, (i + 1) as nat) is None);
            return None;
        }
        i = i + 1;
    }
}

/// The decimal digit for `d`.
pub open spec fn digit(d: nat) -> char {
    (d + 48) as char
}

/// `n` written in decimal, as `u64::to_string` writes it.
pub open spec fn decimal(n: nat) -> Seq<char>
    decreases n,
{
    if n < 10 {
        seq![digit(n)]
    } else {
        decimal(n / 10).push(digit(n % 10))
    }
}

/// The decimal digit for `d`.
pub fn digit_char(d: u64) -> (c: char)
    requires
        d < 10,
    ensures
        c == digit(d as nat),
{
    match d {
        0 => '0',
        1 => '1',
        2 => '2',
        3 => '3',
        4 => '4',
        5 => '5',
        6 => '6',
        7 => '7',
        8 => '8',
        _ => '9',
    }
}

/// `n` in decimal, appended to `out`.
pub fn push_decimal(out: &mut Vec<char>, n: u64)
    ensures
        final(out)@ == old(out)@ + decimal(n as nat),
    decreases n,
{
    if n >= 10 {
        push_decimal(out, n / 10);
    }
    out.push(digit_char(n % 10));
}

} // verus!
