//! Facts about the UTF-8 encoding of a sequence of chars, which is how a
//! `str` holds them: how the bytes of a concatenation split, and where the
//! bytes of an ASCII char can be found.

use vstd::prelude::*;
use vstd::utf8::*;

verus! {

/// The bytes of a concatenation are the bytes of its parts.
pub proof fn lemma_encode_concat(a: Seq<char>, b: Seq<char>)
    ensures
        encode_utf8(a + b) == encode_utf8(a) + encode_utf8(b),
    decreases a.len(),
{
    if a.len() == 0 {
        assert(a + b =~= b);
        assert(encode_utf8(a) =~= seq![]);
        assert(seq![] + encode_utf8(b) =~= encode_utf8(b));
    } else {
        lemma_encode_concat(a.drop_first(), b);
        assert((a + b).drop_first() =~= a.drop_first() + b);
        assert((a + b)[0] == a[0]);
        assert(encode_scalar(a[0] as u32) + (encode_utf8(a.drop_first()) + encode_utf8(b))
            =~= (encode_scalar(a[0] as u32) + encode_utf8(a.drop_first())) + encode_utf8(b));
    }
}

/// The bytes of a single char.
pub proof fn lemma_encode_one(c: char)
    ensures
        encode_utf8(seq![c]) == encode_scalar(c as u32),
{
    assert(seq![c].drop_first() =~= Seq::<char>::empty());
    assert(encode_utf8(Seq::<char>::empty()) =~= seq![]);
    assert(encode_scalar(c as u32) + seq![] =~= encode_scalar(c as u32));
}

/// How many bytes `c` takes: one for ASCII, more for the rest.
pub open spec fn width(c: char) -> nat {
    encode_scalar(c as u32).len()
}

/// An ASCII char is one byte, its own value; any other char is bytes that are
/// all 0x80 or above.
pub proof fn lemma_scalar_bytes(c: char)
    ensures
        (c as u32) < 0x80 ==> encode_scalar(c as u32) == seq![c as u32 as u8],
        (c as u32) >= 0x80 ==> forall|i: int|
            0 <= i < encode_scalar(c as u32).len() ==> #[trigger] encode_scalar(c as u32)[i]
                >= 0x80,
        1 <= width(c) <= 4,
        width(c) == 1 <==> (c as u32) < 0x80,
        width(c) == 2 <==> 0x80 <= (c as u32) < 0x800,
        width(c) == 3 <==> 0x800 <= (c as u32) < 0x10000,
        width(c) == 4 <==> 0x10000 <= (c as u32),
{
    let v = c as u32;
    assert(is_scalar(v));
    if v < 0x80 {
        assert((v & 0x7F) as u8 == v as u8) by (bit_vector)
            requires
                v < 0x80,
        ;
    } else if v < 0x800 {
        assert(0xC0 | ((v >> 6) & 0x1F) as u8 >= 0x80) by (bit_vector);
        assert(0x80 | (v & 0x3F) as u8 >= 0x80) by (bit_vector);
    } else if has_width_3_encoding(v) {
        assert(0xE0 | ((v >> 12) & 0x0F) as u8 >= 0x80) by (bit_vector);
        assert(0x80 | ((v >> 6) & 0x3F) as u8 >= 0x80) by (bit_vector);
        assert(0x80 | (v & 0x3F) as u8 >= 0x80) by (bit_vector);
    } else {
        assert(0xF0 | ((v >> 18) & 0x7) as u8 >= 0x80) by (bit_vector);
        assert(0x80 | ((v >> 12) & 0x3F) as u8 >= 0x80) by (bit_vector);
        assert(0x80 | ((v >> 6) & 0x3F) as u8 >= 0x80) by (bit_vector);
        assert(0x80 | (v & 0x3F) as u8 >= 0x80) by (bit_vector);
    }
}

/// Two chars, one of them ASCII, are equal exactly when their low bytes are.
proof fn lemma_same_ascii(a: char, c: char)
    requires
        (c as u32) < 0x80,
    ensures
        (a as u32) < 0x80 ==> ((a as u32 as u8 == c as u32 as u8) == (a == c)),
        a == c ==> (a as u32) < 0x80,
{
    let x = a as u32;
    let y = c as u32;
    if x < 0x80 {
        assert((x as u8 == y as u8) == (x == y)) by (bit_vector)
            requires
                x < 0x80,
                y < 0x80,
        ;
        if x == y {
            char_u32_cast(a, x);
            char_u32_cast(c, y);
        }
    }
}

/// The bytes of `s` end with the bytes of its last char.
pub proof fn lemma_encode_last(s: Seq<char>)
    requires
        s.len() > 0,
    ensures
        encode_utf8(s) == encode_utf8(s.drop_last()) + encode_scalar(s.last() as u32),
{
    lemma_encode_concat(s.drop_last(), seq![s.last()]);
    lemma_encode_one(s.last());
    assert(s.drop_last() + seq![s.last()] =~= s);
}

/// The last byte of `s` is the byte of the ASCII char `c` exactly when its
/// last char is `c`.
pub proof fn lemma_last_byte_ascii(s: Seq<char>, c: char)
    requires
        s.len() > 0,
        (c as u32) < 0x80,
    ensures
        encode_utf8(s).len() >= width(s.last()),
        (encode_utf8(s).last() == c as u32 as u8) == (s.last() == c),
        s.last() == c ==> encode_utf8(s.drop_last()) == encode_utf8(s).drop_last(),
{
    lemma_encode_last(s);
    lemma_scalar_bytes(s.last());
    let e = encode_scalar(s.last() as u32);
    assert(encode_utf8(s).last() == e.last());
    lemma_same_ascii(s.last(), c);
    if (s.last() as u32) < 0x80 {
        assert(encode_utf8(s).drop_last() =~= encode_utf8(s.drop_last()));
    } else {
        assert(e[e.len() - 1] >= 0x80);
    }
}

/// The first byte of `s` is the byte of the ASCII char `c` exactly when its
/// first char is `c`.
pub proof fn lemma_first_byte_ascii(s: Seq<char>, c: char)
    requires
        s.len() > 0,
        (c as u32) < 0x80,
    ensures
        encode_utf8(s).len() > 0,
        (encode_utf8(s)[0] == c as u32 as u8) == (s[0] == c),
{
    lemma_scalar_bytes(s[0]);
    let e = encode_scalar(s[0] as u32);
    assert(encode_utf8(s) == e + encode_utf8(s.drop_first()));
    assert(encode_utf8(s)[0] == e[0]);
    lemma_same_ascii(s[0], c);
}

/// Decoding the bytes of `s` gives back `s`.
pub proof fn lemma_decode_encode(s: Seq<char>)
    ensures
        decode_utf8(encode_utf8(s)) == s,
{
    encode_utf8_decode_utf8(s);
}

} // verus!
