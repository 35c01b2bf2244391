//! Standard base64.

use vstd::prelude::*;
use vstd::string::*;

use crate::text::{chars_of, trim, trim_chars};

verus! {

// ── Model ────────────────────────────────────────────────────────────────────

/// The digit of a number below 64.
pub open spec fn digit64(n: int) -> char {
    if n < 26 {
        (65 + n) as char
    } else if n < 52 {
        (71 + n) as char
    } else if n < 62 {
        (n - 4) as char
    } else if n == 62 {
        '+'
    } else {
        '/'
    }
}

/// The number of a digit; none for a character that is no digit.
pub open spec fn value64(c: char) -> Option<int> {
    let n = c as u32 as int;
    if 65 <= n <= 90 {
        Some(n - 65)
    } else if 97 <= n <= 122 {
        Some(n - 71)
    } else if 48 <= n <= 57 {
        Some(n + 4)
    } else if c == '+' {
        Some(62)
    } else if c == '/' {
        Some(63)
    } else {
        None
    }
}

/// Bytes in groups of three as four digits each, the last group filled up with `=`.
pub open spec fn encoded(s: Seq<u8>) -> Seq<char>
    decreases s.len(),
{
    if s.len() == 0 {
        seq![]
    } else if s.len() == 1 {
        seq![digit64(s[0] as int / 4), digit64(s[0] as int % 4 * 16), '=', '=']
    } else if s.len() == 2 {
        seq![
            digit64(s[0] as int / 4),
            digit64(s[0] as int % 4 * 16 + s[1] as int / 16),
            digit64(s[1] as int % 16 * 4),
            '=',
        ]
    } else {
        seq![
            digit64(s[0] as int / 4),
            digit64(s[0] as int % 4 * 16 + s[1] as int / 16),
            digit64(s[1] as int % 16 * 4 + s[2] as int / 64),
            digit64(s[2] as int % 64),
        ] + encoded(s.skip(3))
    }
}

/// The digits up to the first `=`.
pub open spec fn before_padding(s: Seq<char>) -> Seq<char>
    decreases s.len(),
{
    if s.len() == 0 || s[0] == '=' {
        seq![]
    } else {
        seq![s[0]] + before_padding(s.skip(1))
    }
}

/// Every character is a digit.
pub open spec fn all_digits(s: Seq<char>) -> bool {
    forall|i: int| 0 <= i < s.len() ==> value64(#[trigger] s[i]) is Some
}

/// The numbers of digits.
pub open spec fn values(s: Seq<char>) -> Seq<int> {
    s.map_values(|c: char| value64(c)->0)
}

/// The bytes that digits stand for: each four make three; what is left over makes as many whole
/// bytes as it can.
pub open spec fn bytes_of(v: Seq<int>) -> Seq<u8>
    decreases v.len(),
{
    if v.len() < 2 {
        seq![]
    } else if v.len() == 2 {
        seq![(v[0] * 4 + v[1] / 16) as u8]
    } else if v.len() == 3 {
        seq![(v[0] * 4 + v[1] / 16) as u8, (v[1] % 16 * 16 + v[2] / 4) as u8]
    } else {
        seq![
            (v[0] * 4 + v[1] / 16) as u8,
            (v[1] % 16 * 16 + v[2] / 4) as u8,
            (v[2] % 4 * 64 + v[3]) as u8,
        ] + bytes_of(v.skip(4))
    }
}

/// The bytes that a text stands for, with white space around it and padding behind it; none where
/// something else than a digit stands before the padding.
pub open spec fn decoded(s: Seq<char>) -> Option<Seq<u8>> {
    let d = before_padding(trim(s));
    if all_digits(d) {
        Some(bytes_of(values(d)))
    } else {
        None
    }
}

// ── Functions ────────────────────────────────────────────────────────────────

/// The digit of a number below 64.
fn to_digit(n: u8) -> (c: char)
    requires
        n < 64,
    ensures
        c == digit64(n as int),
{
    if n < 26 {
        (65 + n) as char
    } else if n < 52 {
        (71 + n) as char
    } else if n < 62 {
        (n - 4) as char
    } else if n == 62 {
        '+'
    } else {
        '/'
    }
}

/// The number of a digit.
fn from_digit(c: char) -> (r: Option<u8>)
    ensures
        match r {
            Some(n) => value64(c) == Some(n as int) && n < 64,
            None => value64(c) is None,
        },
{
    if 'A' <= c && c <= 'Z' {
        Some(c as u8 - 65)
    } else if 'a' <= c && c <= 'z' {
        Some(c as u8 - 71)
    } else if '0' <= c && c <= '9' {
        Some(c as u8 + 4)
    } else if c == '+' {
        Some(62)
    } else if c == '/' {
        Some(63)
    } else {
        None
    }
}

/// Encode bytes.
pub fn b64_encode(input: &[u8]) -> (r: String)
    ensures
        r@ == encoded(input@),
{
    let mut r = String::new();
    let size: usize = input.len();
    let mut i: usize = 0;
    assert(input@.skip(0) =~= input@);
    assert(r@ + encoded(input@) =~= encoded(input@));
    while i < size
        invariant
            size == input@.len(),
            i <= size,
            encoded(input@) == r@ + encoded(input@.skip(i as int)),
        decreases size - i,
    {
        let ghost rest = input@.skip(i as int);
        let ghost before = r@;
        let left: usize = size - i;
        let a: u8 = input[i];
        assert(rest[0] == a);
        let b: u8 = if left > 1 {
            input[i + 1]
        } else {
            0
        };
        let c: u8 = if left > 2 {
            input[i + 2]
        } else {
            0
        };
        r.push(to_digit(a / 4));
        r.push(to_digit(a % 4 * 16 + b / 16));
        if left > 1 {
            assert(rest[1] == b);
            r.push(to_digit(b % 16 * 4 + c / 64));
        } else {
            r.push('=');
        }
        if left > 2 {
            assert(rest[2] == c);
            r.push(to_digit(c % 64));
            assert(rest.skip(3) =~= input@.skip(i + 3));
            assert(before + encoded(rest) =~= r@ + encoded(rest.skip(3)));
            i += 3;
        } else {
            r.push('=');
            assert(before + encoded(rest) =~= r@);
            i = size;
            assert(input@.skip(size as int) =~= seq![]);
            assert(r@ + encoded(input@.skip(size as int)) =~= r@);
        }
    }
    assert(input@.skip(i as int) =~= seq![]);
    assert(r@ + encoded(input@.skip(i as int)) =~= r@);
    r
}

/// The numbers of the digits before the padding.
fn sextets(s: &[char]) -> (r: Option<Vec<u8>>)
    ensures
        match r {
            Some(v) => {
                &&& all_digits(before_padding(s@))
                &&& v@.map_values(|n: u8| n as int) == values(before_padding(s@))
                &&& forall|i: int| 0 <= i < v@.len() ==> #[trigger] v@[i] < 64
            },
            None => !all_digits(before_padding(s@)),
        },
{
    let mut v: Vec<u8> = Vec::new();
    let mut i: usize = 0;
    let ghost d = before_padding(s@);
    assert(s@.skip(0) =~= s@);
    assert(s@.take(0) + before_padding(s@) =~= d);
    while i < s.len() && s[i] != '='
        invariant
            i <= s@.len(),
            d == before_padding(s@),
            d == s@.take(i as int) + before_padding(s@.skip(i as int)),
            v@.len() == i,
            forall|j: int|
                0 <= j < i ==> value64(#[trigger] s@[j]) == Some(v@[j] as int) && v@[j] < 64,
        decreases s@.len() - i,
    {
        assert(s@.skip(i as int)[0] == s@[i as int]);
        assert(s@.skip(i as int).skip(1) =~= s@.skip(i + 1));
        assert(s@.take(i as int) + (seq![s@[i as int]] + before_padding(s@.skip(i + 1))) =~= s@.take(
            i + 1,
        ) + before_padding(s@.skip(i + 1)));
        match from_digit(s[i]) {
            Some(n) => {
                v.push(n);
            },
            None => {
                assert(d[i as int] == s@[i as int]);
                return None;
            },
        }
        i += 1;
    }
    assert(before_padding(s@.skip(i as int)) =~= seq![]);
    assert(d =~= s@.take(i as int));
    assert forall|j: int| 0 <= j < d.len() implies value64(#[trigger] d[j]) is Some by {
        assert(d[j] == s@[j]);
    }
    assert(v@.map_values(|n: u8| n as int) =~= values(d)) by {
        assert forall|j: int| 0 <= j < d.len() implies v@[j] as int == #[trigger] values(d)[j] by {
            assert(value64(s@[j]) == Some(v@[j] as int));
            assert(d[j] == s@[j]);
        }
    }
    assert forall|j: int| 0 <= j < v@.len() implies #[trigger] v@[j] < 64 by {
        assert(value64(s@[j]) == Some(v@[j] as int) && v@[j] < 64);
    }
    Some(v)
}

/// Decode a text; nothing where something else than a digit stands before the padding.
pub fn base64_decode(input: &str) -> (r: Option<Vec<u8>>)
    ensures
        match r {
            Some(bytes) => decoded(input@) == Some(bytes@),
            None => decoded(input@) is None,
        },
{
    let all = chars_of(input);
    let v = match sextets(trim_chars(all.as_slice())) {
        Some(v) => v,
        None => {
            return None;
        },
    };
    let ghost w = v@.map_values(|n: u8| n as int);
    let size: usize = v.len();
    let mut out: Vec<u8> = Vec::new();
    let mut i: usize = 0;
    assert(w.skip(0) =~= w);
    assert(out@ + bytes_of(w) =~= bytes_of(w));
    while size - i >= 2
        invariant
            size == v@.len(),
            i <= size,
            w == v@.map_values(|n: u8| n as int),
            forall|j: int| 0 <= j < v@.len() ==> #[trigger] v@[j] < 64,
            bytes_of(w) == out@ + bytes_of(w.skip(i as int)),
        decreases size - i,
    {
        let ghost rest = w.skip(i as int);
        let ghost before = out@;
        let left: usize = size - i;
        let a: u8 = v[i];
        let b: u8 = v[i + 1];
        assert(rest[0] == a && rest[1] == b);
        out.push(a * 4 + b / 16);
        if left == 2 {
            assert(before + bytes_of(rest) =~= out@);
            i = size;
        } else {
            let c: u8 = v[i + 2];
            assert(rest[2] == c);
            out.push(b % 16 * 16 + c / 4);
            if left == 3 {
                assert(before + bytes_of(rest) =~= out@);
                i = size;
            } else {
                let d: u8 = v[i + 3];
                assert(rest[3] == d);
                out.push(c % 4 * 64 + d);
                assert(rest.skip(4) =~= w.skip(i + 4));
                assert(before + bytes_of(rest) =~= out@ + bytes_of(rest.skip(4)));
                i += 4;
            }
        }
        assert(i == size ==> out@ + bytes_of(w.skip(i as int)) =~= out@);
    }
    assert(bytes_of(w.skip(i as int)) =~= seq![]);
    assert(out@ + bytes_of(w.skip(i as int)) =~= out@);
    Some(out)
}

// ── Laws ─────────────────────────────────────────────────────────────────────

/// A digit gives back the number that it was made from, and is no padding and no white space.
proof fn lemma_digit(n: int)
    requires
        0 <= n < 64,
    ensures
        value64(digit64(n)) == Some(n),
        digit64(n) != '=',
        !crate::text::is_white(digit64(n)),
{
}

/// The digits of encoded bytes.
spec fn code(s: Seq<u8>) -> Seq<int>
    decreases s.len(),
{
    if s.len() == 0 {
        seq![]
    } else if s.len() == 1 {
        seq![s[0] as int / 4, s[0] as int % 4 * 16]
    } else if s.len() == 2 {
        seq![
            s[0] as int / 4,
            s[0] as int % 4 * 16 + s[1] as int / 16,
            s[1] as int % 16 * 4,
        ]
    } else {
        seq![
            s[0] as int / 4,
            s[0] as int % 4 * 16 + s[1] as int / 16,
            s[1] as int % 16 * 4 + s[2] as int / 64,
            s[2] as int % 64,
        ] + code(s.skip(3))
    }
}

/// Four digits hold three bytes.
proof fn lemma_three_bytes(a: u8, b: u8, c: u8)
    ensures
        ({
            let n0 = a as int / 4;
            let n1 = a as int % 4 * 16 + b as int / 16;
            let n2 = b as int % 16 * 4 + c as int / 64;
            let n3 = c as int % 64;
            &&& 0 <= n0 < 64 && 0 <= n1 < 64 && 0 <= n2 < 64 && 0 <= n3 < 64
            &&& n0 * 4 + n1 / 16 == a
            &&& n1 % 16 * 16 + n2 / 4 == b
            &&& n2 % 4 * 64 + n3 == c
        }),
{
}

/// The digits come back from the text, and the bytes from the digits.
#[verifier::rlimit(60)]
#[verifier::spinoff_prover]
proof fn lemma_code(s: Seq<u8>)
    ensures
        all_digits(before_padding(encoded(s))),
        values(before_padding(encoded(s))) == code(s),
        bytes_of(code(s)) == s,
        encoded(s).len() > 0 ==> !crate::text::is_white(encoded(s)[0])
            && !crate::text::is_white(encoded(s).last()),
    decreases s.len(),
{
    reveal_with_fuel(before_padding, 5);
    let e = encoded(s);
    let d = before_padding(e);
    if s.len() == 0 {
        assert(d =~= seq![]);
        assert(values(d) =~= code(s));
        assert(bytes_of(code(s)) =~= s);
    } else {
        let n0 = s[0] as int / 4;
        lemma_digit(n0);
        if s.len() == 1 {
            let n1 = s[0] as int % 4 * 16;
            lemma_digit(n1);
            assert(e.skip(1).skip(1) =~= seq!['=', '=']);
            assert(e.skip(1)[0] == digit64(n1));
            assert(d =~= seq![digit64(n0), digit64(n1)]);
            assert(values(d) =~= code(s));
            assert(n0 * 4 + n1 / 16 == s[0]);
            assert(bytes_of(code(s)) =~= s);
        } else if s.len() == 2 {
            let n1 = s[0] as int % 4 * 16 + s[1] as int / 16;
            let n2 = s[1] as int % 16 * 4;
            lemma_digit(n1);
            lemma_digit(n2);
            assert(e.skip(1)[0] == digit64(n1));
            assert(e.skip(1).skip(1)[0] == digit64(n2));
            assert(e.skip(1).skip(1).skip(1) =~= seq!['=']);
            assert(d =~= seq![digit64(n0), digit64(n1), digit64(n2)]);
            assert(values(d) =~= code(s));
            assert(n0 * 4 + n1 / 16 == s[0]);
            assert(n1 % 16 * 16 + n2 / 4 == s[1]);
            assert(bytes_of(code(s)) =~= s);
        } else {
            let n1 = s[0] as int % 4 * 16 + s[1] as int / 16;
            let n2 = s[1] as int % 16 * 4 + s[2] as int / 64;
            let n3 = s[2] as int % 64;
            lemma_three_bytes(s[0], s[1], s[2]);
            lemma_digit(n1);
            lemma_digit(n2);
            lemma_digit(n3);
            let t = s.skip(3);
            lemma_code(t);
            assert(e.skip(1)[0] == digit64(n1));
            assert(e.skip(1).skip(1)[0] == digit64(n2));
            assert(e.skip(1).skip(1).skip(1)[0] == digit64(n3));
            assert(e.skip(1).skip(1).skip(1).skip(1) =~= encoded(t));
            let dt = before_padding(encoded(t));
            let front = seq![digit64(n0), digit64(n1), digit64(n2), digit64(n3)];
            assert(d =~= front + dt);
            assert forall|i: int| 0 <= i < d.len() implies value64(#[trigger] d[i]) is Some by {
                if i >= 4 {
                    assert(d[i] == dt[i - 4]);
                }
            }
            assert(values(d) =~= seq![n0, n1, n2, n3] + values(dt));
            assert(n0 * 4 + n1 / 16 == s[0]);
            assert(n1 % 16 * 16 + n2 / 4 == s[1]);
            assert(n2 % 4 * 64 + n3 == s[2]);
            assert(code(s).skip(4) =~= code(t));
            assert(bytes_of(code(s)) =~= s);
            if t.len() > 0 {
                assert(e.last() == encoded(t).last()) by {
                    assert(encoded(t).len() > 0);
                }
            } else {
                assert(encoded(t) =~= seq![]);
                assert(e.last() == digit64(n3));
            }
        }
    }
}

/// Decoding gives back the bytes that were encoded.
pub proof fn law_decode_inverts_encode(s: Seq<u8>)
    ensures
        decoded(encoded(s)) == Some(s),
{
    lemma_code(s);
    let e = encoded(s);
    assert(trim(e) == e);
}

/// What was encoded is decoded to the same bytes, also with white space around it.
pub proof fn law_encoded_bytes_decode_back(
    bytes: &[u8],
    text: String,
    front: Seq<char>,
    back: Seq<char>,
    read: &str,
    r: Option<Vec<u8>>,
)
    requires
        call_ensures(b64_encode, (bytes,), text),
        crate::text::blank(front),
        crate::text::blank(back),
        read@ == front + text@ + back,
        call_ensures(base64_decode, (read,), r),
        bytes@.len() > 0,
    ensures
        r is Some && r->0@ == bytes@,
{
    law_decode_inverts_encode(bytes@);
    lemma_encoded_tight(bytes@);
    let none: Seq<char> = seq![];
    assert(crate::text::blank(none));
    crate::text::law_trimming_keeps_the_core(none, text@, none);
    assert(none + text@ + none =~= text@);
    crate::text::law_trimming_keeps_the_core(front, text@, back);
}

proof fn lemma_encoded_tight(s: Seq<u8>)
    requires
        s.len() > 0,
    ensures
        crate::text::tight(encoded(s)),
    decreases s.len(),
{
    if s.len() > 3 {
        lemma_encoded_tight(s.skip(3));
        assert(encoded(s).last() == encoded(s.skip(3)).last());
    } else if s.len() == 3 {
        assert(s.skip(3) =~= seq![]);
        let none: Seq<u8> = seq![];
        assert(encoded(none) =~= seq![]);
        assert(encoded(s).len() == 4);
        assert(encoded(s).last() == digit64(s[2] as int % 64));
    }
}

/// The digits are the letters in both cases, the decimal digits, the plus sign and the slash, in this
/// order.
pub proof fn law_digits_are_the_standard_ones(n: int)
    requires
        0 <= n < 64,
    ensures
        digit64(n) == "ABCDEFGHIJKLMNOPQRSTUVWXYZabcdefghijklmnopqrstuvwxyz0123456789+/"@[n],
{
    reveal_strlit("ABCDEFGHIJKLMNOPQRSTUVWXYZabcdefghijklmnopqrstuvwxyz0123456789+/");
}

/// Three bytes are four digits that stand for the same number, to the base of 256 and of 64, and
/// groups stand in their order; what is left over is filled up to a group of four.
pub proof fn law_three_bytes_are_four_digits(a: u8, b: u8, c: u8, rest: Seq<u8>)
    ensures
        ({
            let e = encoded(seq![a, b, c] + rest);
            &&& e.skip(4) == encoded(rest)
            &&& value64(e[0]) is Some && value64(e[1]) is Some && value64(e[2]) is Some && value64(
                e[3],
            ) is Some
            &&& value64(e[0])->0 * 262_144 + value64(e[1])->0 * 4_096 + value64(e[2])->0 * 64
                + value64(e[3])->0 == a * 65_536 + b * 256 + c
        }),
        encoded(seq![a]).len() == 4 && encoded(seq![a])[2] == '=' && encoded(seq![a])[3] == '=',
        encoded(seq![a, b]).len() == 4 && encoded(seq![a, b])[3] == '=',
{
    let s = seq![a, b, c] + rest;
    assert(s.skip(3) =~= rest);
    let e = encoded(s);
    assert(e.skip(4) =~= encoded(rest));
    lemma_digit_value(a as int / 4);
    lemma_digit_value(a as int % 4 * 16 + b as int / 16);
    lemma_digit_value(b as int % 16 * 4 + c as int / 64);
    lemma_digit_value(c as int % 64);
}

proof fn lemma_digit_value(n: int)
    requires
        0 <= n < 64,
    ensures
        value64(digit64(n)) == Some(n),
{
}

/// Nothing is read out of a text that holds something else than digits before its padding.
pub proof fn law_only_digits_decode(
    front: Seq<char>,
    digits: Seq<char>,
    padding: Seq<char>,
    back: Seq<char>,
    input: &str,
    r: Option<Vec<u8>>,
)
    requires
        call_ensures(base64_decode, (input,), r),
        input@ == front + (digits + padding) + back,
        crate::text::blank(front),
        crate::text::blank(back),
        crate::text::tight(digits + padding),
        !digits.contains('='),
        padding.len() == 0 || padding[0] == '=',
    ensures
        r is Some <==> forall|i: int|
            0 <= i < digits.len() ==> {
                ||| 'A' <= #[trigger] digits[i] <= 'Z'
                ||| 'a' <= digits[i] <= 'z'
                ||| '0' <= digits[i] <= '9'
                ||| digits[i] == '+'
                ||| digits[i] == '/'
            },
{
    crate::text::law_trimming_keeps_the_core(front, digits + padding, back);
    lemma_up_to_padding(digits, padding);
    let d = before_padding(digits + padding);
    if r is Some {
        assert forall|i: int| 0 <= i < digits.len() implies ({
            ||| 'A' <= #[trigger] digits[i] <= 'Z'
            ||| 'a' <= digits[i] <= 'z'
            ||| '0' <= digits[i] <= '9'
            ||| digits[i] == '+'
            ||| digits[i] == '/'
        }) by {
            assert(value64(d[i]) is Some);
            lemma_digit_chars(digits[i]);
        }
    }
}

proof fn lemma_digit_chars(c: char)
    ensures
        value64(c) is Some <==> 'A' <= c <= 'Z' || 'a' <= c <= 'z' || '0' <= c <= '9' || c == '+'
            || c == '/',
{
}

proof fn lemma_up_to_padding(digits: Seq<char>, padding: Seq<char>)
    requires
        !digits.contains('='),
        padding.len() == 0 || padding[0] == '=',
    ensures
        before_padding(digits + padding) == digits,
    decreases digits.len(),
{
    let s = digits + padding;
    if digits.len() == 0 {
        assert(s =~= padding);
        assert(before_padding(s) =~= digits);
    } else {
        assert(digits.contains(digits[0]));
        assert(!digits.skip(1).contains('=')) by {
            if digits.skip(1).contains('=') {
                let i = choose|i: int| 0 <= i < digits.skip(1).len() && digits.skip(1)[i] == '=';
                assert(digits[i + 1] == '=');
            }
        }
        lemma_up_to_padding(digits.skip(1), padding);
        assert(s.skip(1) =~= digits.skip(1) + padding);
        assert(seq![digits[0]] + digits.skip(1) =~= digits);
    }
}

} // verus!
