//! Bytes read as UTF-8.

use vstd::prelude::*;
use vstd::utf8::{
    char_is_scalar, char_u32_cast, decode_utf8, encode_scalar, encode_utf8, encode_utf8_decode_utf8,
    encode_utf8_valid_utf8, valid_utf8,
};

verus! {

/// What `String::from_utf8_lossy` makes of bytes that are not UTF-8.
pub uninterp spec fn repaired_utf8(bytes: Seq<u8>) -> Seq<char>;

/// The text that bytes are read as: the text that they encode where they are UTF-8.
pub open spec fn utf8_lossy(bytes: Seq<u8>) -> Seq<char> {
    if valid_utf8(bytes) {
        decode_utf8(bytes)
    } else {
        repaired_utf8(bytes)
    }
}

/// `String::from_utf8_lossy`: bytes that are UTF-8 are read as the text they encode; others are
/// repaired in a way that depends on the bytes alone, which is named and not described.
#[verifier::external_body]
pub(crate) fn from_utf8_lossy(bytes: &[u8]) -> (s: String)
    ensures
        s@ == if valid_utf8(bytes@) {
            decode_utf8(bytes@)
        } else {
            repaired_utf8(bytes@)
        },
{
    String::from_utf8_lossy(bytes).into_owned()
}

/// A character takes one to four bytes.
pub proof fn lemma_utf8_len(s: Seq<char>)
    ensures
        s.len() <= encode_utf8(s).len() <= 4 * s.len(),
    decreases s.len(),
{
    if s.len() > 0 {
        lemma_utf8_len(s.drop_first());
        char_is_scalar(s[0]);
        assert(1 <= encode_scalar(s[0] as u32).len() <= 4);
    }
}

/// The encoding of a character holds a byte below 128 only where the character is that byte.
proof fn lemma_low_bytes(c: char, i: int)
    requires
        0 <= i < encode_scalar(c as u32).len(),
    ensures
        encode_scalar(c as u32)[i] < 128 ==> encode_scalar(c as u32).len() == 1 && c as u32
            == encode_scalar(c as u32)[i],
        (c as u32) < 128 ==> encode_scalar(c as u32) == seq![c as u8],
{
    char_is_scalar(c);
    let n = c as u32;
    assert(forall|b: u8| #[trigger] (0x80u8 | b) >= 0x80u8) by (bit_vector);
    assert(forall|b: u8| #[trigger] (0xC0u8 | b) >= 0x80u8) by (bit_vector);
    assert(forall|b: u8| #[trigger] (0xE0u8 | b) >= 0x80u8) by (bit_vector);
    assert(forall|b: u8| #[trigger] (0xF0u8 | b) >= 0x80u8) by (bit_vector);
    if n < 128 {
        assert(n & 0x7F == n) by (bit_vector)
            requires
                n < 128,
        ;
        assert(encode_scalar(n) =~= seq![c as u8]);
    }
}

/// A line feed stands among the bytes of a text only where it stands in the text.
pub proof fn lemma_line_feed_byte(s: Seq<char>)
    ensures
        encode_utf8(s).contains(10u8) ==> s.contains('\n'),
    decreases s.len(),
{
    if encode_utf8(s).contains(10u8) {
        let i = choose|i: int| 0 <= i < encode_utf8(s).len() && encode_utf8(s)[i] == 10u8;
        let first = encode_scalar(s[0] as u32);
        let rest = encode_utf8(s.drop_first());
        assert(encode_utf8(s) == first + rest);
        if i < first.len() {
            lemma_low_bytes(s[0], i);
            char_u32_cast(s[0], 10);
            char_u32_cast('\n', 10);
            assert(s[0] == '\n');
        } else {
            assert(rest[i - first.len()] == 10u8);
            lemma_line_feed_byte(s.drop_first());
            let j = choose|j: int| 0 <= j < s.drop_first().len() && s.drop_first()[j] == '\n';
            assert(s[j + 1] == '\n');
        }
    }
}

/// The bytes of two texts, one after the other, are the bytes of the two together.
pub proof fn lemma_utf8_concat(a: Seq<char>, b: Seq<char>)
    ensures
        encode_utf8(a + b) == encode_utf8(a) + encode_utf8(b),
    decreases a.len(),
{
    if a.len() == 0 {
        assert(a + b =~= b);
        assert(encode_utf8(a) + encode_utf8(b) =~= encode_utf8(b));
    } else {
        assert((a + b).drop_first() =~= a.drop_first() + b);
        lemma_utf8_concat(a.drop_first(), b);
        assert(encode_utf8(a + b) =~= encode_utf8(a) + encode_utf8(b));
    }
}

/// The bytes of a line feed.
pub proof fn lemma_line_feed()
    ensures
        encode_utf8(seq!['\n']) == seq![10u8],
{
    let s = seq!['\n'];
    reveal_with_fuel(encode_utf8, 2);
    char_is_scalar('\n');
    assert(1 <= encode_scalar('\n' as u32).len());
    lemma_low_bytes('\n', 0);
    assert(s.drop_first() =~= seq![]);
    assert(encode_utf8(s) =~= seq![10u8]);
}

/// Text that was encoded is read back as it was.
pub proof fn law_encoded_text_reads_back(s: Seq<char>)
    ensures
        utf8_lossy(encode_utf8(s)) == s,
{
    encode_utf8_valid_utf8(s);
    encode_utf8_decode_utf8(s);
}

} // verus!
