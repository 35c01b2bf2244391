//! Text as sequences of characters: searching, trimming, case folding, joining and numerals.

use vstd::prelude::*;
use vstd::slice::slice_subrange;

verus! {

/// `String::push` appends one character.
pub assume_specification[ String::push ](s: &mut String, c: char)
    ensures
        final(s)@ == old(s)@.push(c),
;

/// `String::push_str` appends the whole of another string.
pub assume_specification[ String::push_str ](s: &mut String, t: &str)
    ensures
        final(s)@ == old(s)@ + t@,
;

/// `char::is_whitespace` tells whether a character has the Unicode property `White_Space`,
/// which these code points have and no others.
pub assume_specification[ char::is_whitespace ](c: char) -> (b: bool)
    ensures
        b == is_white(c),
;

// ── Searching ────────────────────────────────────────────────────────────────

/// `p` stands in `s` at index `i`.
pub open spec fn occurs_at<T>(s: Seq<T>, p: Seq<T>, i: int) -> bool {
    0 <= i && i + p.len() <= s.len() && s.subrange(i, i + p.len()) == p
}

/// `p` stands somewhere in `s`.
pub open spec fn contains<T>(s: Seq<T>, p: Seq<T>) -> bool {
    exists|i: int| occurs_at(s, p, i)
}

/// The first index, not before `from`, at which `p` stands in `s`.
pub open spec fn find_from<T>(s: Seq<T>, p: Seq<T>, from: int) -> Option<int>
    decreases s.len() + 1 - from,
{
    if from < 0 || from + p.len() > s.len() {
        None
    } else if occurs_at(s, p, from) {
        Some(from)
    } else {
        find_from(s, p, from + 1)
    }
}

/// The first index at which `p` stands in `s`.
pub open spec fn find<T>(s: Seq<T>, p: Seq<T>) -> Option<int> {
    find_from(s, p, 0)
}

/// What the result of a search says of the places before it.
pub proof fn lemma_find_from<T>(s: Seq<T>, p: Seq<T>, from: int)
    requires
        0 <= from,
    ensures
        match find_from(s, p, from) {
            Some(i) => from <= i && occurs_at(s, p, i) && forall|j: int|
                from <= j < i ==> !#[trigger] occurs_at(s, p, j),
            None => forall|j: int| from <= j ==> !#[trigger] occurs_at(s, p, j),
        },
    decreases s.len() + 1 - from,
{
    if from + p.len() <= s.len() && !occurs_at(s, p, from) {
        lemma_find_from(s, p, from + 1);
    }
}

/// A search finds the place that holds the pattern and has none before it.
pub proof fn lemma_find_is<T>(s: Seq<T>, p: Seq<T>, i: int)
    requires
        occurs_at(s, p, i),
        forall|j: int| 0 <= j < i ==> !#[trigger] occurs_at(s, p, j),
    ensures
        find(s, p) == Some(i),
{
    lemma_find_from(s, p, 0);
}

/// A search finds something exactly where the pattern stands in the text.
pub proof fn lemma_find_contains<T>(s: Seq<T>, p: Seq<T>)
    ensures
        contains(s, p) <==> find(s, p) is Some,
{
    lemma_find_from(s, p, 0);
    if contains(s, p) {
        let i = choose|i: int| occurs_at(s, p, i);
        assert(occurs_at(s, p, i));
    }
}

/// Whether two stretches of text are the same.
pub fn same_chars(s: &[char], t: &[char]) -> (b: bool)
    ensures
        b == (s@ == t@),
{
    if s.len() != t.len() {
        return false;
    }
    let mut i: usize = 0;
    while i < s.len()
        invariant
            i <= s@.len(),
            s@.len() == t@.len(),
            forall|j: int| 0 <= j < i ==> s@[j] == t@[j],
        decreases s@.len() - i,
    {
        if s[i] != t[i] {
            return false;
        }
        i += 1;
    }
    assert(s@ =~= t@);
    true
}

/// Whether `p` stands in `s` at index `i`.
pub fn stands_at(s: &[char], p: &[char], i: usize) -> (b: bool)
    ensures
        b == occurs_at(s@, p@, i as int),
{
    if p.len() > s.len() || i > s.len() - p.len() {
        return false;
    }
    same_chars(slice_subrange(s, i, i + p.len()), p)
}

/// The first index, not before `from`, at which `p` stands in `s`.
pub fn find_chars(s: &[char], p: &[char], from: usize) -> (r: Option<usize>)
    ensures
        match r {
            Some(i) => find_from(s@, p@, from as int) == Some(i as int),
            None => find_from(s@, p@, from as int) is None,
        },
{
    if p.len() > s.len() {
        return None;
    }
    let last: usize = s.len() - p.len();
    let mut i: usize = from;
    while i <= last
        invariant
            last == s@.len() - p@.len(),
            from <= i,
            find_from(s@, p@, from as int) == find_from(s@, p@, i as int),
        decreases s@.len() - i,
    {
        if stands_at(s, p, i) {
            return Some(i);
        }
        if i == last {
            assert(find_from(s@, p@, i + 1) is None);
            return None;
        }
        i += 1;
    }
    None
}

/// Whether `p` stands somewhere in `s`.
pub fn contains_str(s: &str, p: &str) -> (b: bool)
    ensures
        b == contains(s@, p@),
{
    let hay = chars_of(s);
    let pat = chars_of(p);
    proof {
        lemma_find_contains(s@, p@);
    }
    find_chars(hay.as_slice(), pat.as_slice(), 0).is_some()
}

/// Whether `s` begins with `p`.
pub fn starts_with(s: &str, p: &str) -> (b: bool)
    ensures
        b == p@.is_prefix_of(s@),
{
    let hay = chars_of(s);
    let pat = chars_of(p);
    stands_at(hay.as_slice(), pat.as_slice(), 0)
}

/// Whether the two texts are the same.
pub fn same(s: &str, t: &str) -> (b: bool)
    ensures
        b == (s@ == t@),
{
    let a = chars_of(s);
    let b = chars_of(t);
    same_chars(a.as_slice(), b.as_slice())
}

// ── Conversions ──────────────────────────────────────────────────────────────

/// The characters of a string.
pub fn chars_of(s: &str) -> (v: Vec<char>)
    ensures
        v@ == s@,
{
    let mut v: Vec<char> = Vec::new();
    for c in it: s.chars()
        invariant
            it.seq() == s@,
            v@ == it.seq().take(it.index() as int),
    {
        v.push(c);
    }
    v
}

/// The string made of the given characters.
pub fn text_of(v: &[char]) -> (s: String)
    ensures
        s@ == v@,
{
    let mut s = String::new();
    let mut i: usize = 0;
    while i < v.len()
        invariant
            i <= v@.len(),
            s@ == v@.take(i as int),
        decreases v@.len() - i,
    {
        s.push(v[i]);
        i += 1;
        assert(v@.take(i as int) =~= v@.take(i - 1).push(v@[i - 1]));
    }
    assert(v@.take(i as int) =~= v@);
    s
}

/// The string made of the characters from index `i` up to index `j`.
pub fn text_between(v: &[char], i: usize, j: usize) -> (s: String)
    requires
        i <= j <= v@.len(),
    ensures
        s@ == v@.subrange(i as int, j as int),
{
    text_of(slice_subrange(v, i, j))
}

/// The texts that a sequence of strings holds.
pub open spec fn texts(v: Seq<String>) -> Seq<Seq<char>> {
    v.map_values(|s: String| s@)
}

/// The texts that a sequence of string slices holds.
pub open spec fn strs(v: Seq<&str>) -> Seq<Seq<char>> {
    v.map_values(|s: &str| s@)
}

// ── White space and case ─────────────────────────────────────────────────────

/// The code points of the Unicode property `White_Space`.
pub open spec fn is_white(c: char) -> bool {
    let n = c as u32;
    ||| 0x9 <= n <= 0xd
    ||| n == 0x20
    ||| n == 0x85
    ||| n == 0xa0
    ||| n == 0x1680
    ||| 0x2000 <= n <= 0x200a
    ||| n == 0x2028
    ||| n == 0x2029
    ||| n == 0x202f
    ||| n == 0x205f
    ||| n == 0x3000
}

/// The text without the white space in front.
pub open spec fn trim_start(s: Seq<char>) -> Seq<char>
    decreases s.len(),
{
    if s.len() > 0 && is_white(s[0]) {
        trim_start(s.skip(1))
    } else {
        s
    }
}

/// The text without the white space at its end.
pub open spec fn trim_end(s: Seq<char>) -> Seq<char>
    decreases s.len(),
{
    if s.len() > 0 && is_white(s.last()) {
        trim_end(s.drop_last())
    } else {
        s
    }
}

/// The text without the white space around it.
pub open spec fn trim(s: Seq<char>) -> Seq<char> {
    trim_end(trim_start(s))
}

/// The part of `v` that is left when the white space around it is dropped.
pub fn trim_chars(v: &[char]) -> (r: &[char])
    ensures
        r@ == trim(v@),
{
    let mut i: usize = 0;
    assert(v@.skip(0) =~= v@);
    while i < v.len() && v[i].is_whitespace()
        invariant
            i <= v@.len(),
            trim_start(v@) == trim_start(v@.skip(i as int)),
        decreases v@.len() - i,
    {
        assert(v@.skip(i as int).skip(1) =~= v@.skip(i + 1));
        i += 1;
    }
    let mut j: usize = v.len();
    assert(v@.subrange(i as int, j as int) =~= v@.skip(i as int));
    while i < j && v[j - 1].is_whitespace()
        invariant
            i <= j <= v@.len(),
            trim(v@) == trim_end(v@.subrange(i as int, j as int)),
        decreases j,
    {
        assert(v@.subrange(i as int, j as int).drop_last() =~= v@.subrange(i as int, j - 1));
        j -= 1;
    }
    slice_subrange(v, i, j)
}

/// The text without the white space around it.
pub fn trimmed(s: &str) -> (r: String)
    ensures
        r@ == trim(s@),
{
    let v = chars_of(s);
    text_of(trim_chars(v.as_slice()))
}

/// The ASCII letters folded to lower case, every other character as it is.
pub open spec fn lower_char(c: char) -> char {
    if 'A' <= c <= 'Z' {
        (c as u8 + 32) as char
    } else {
        c
    }
}

/// The text with its ASCII letters folded to lower case.
pub open spec fn lower(s: Seq<char>) -> Seq<char> {
    s.map_values(|c: char| lower_char(c))
}

/// The characters with the ASCII letters folded to lower case.
pub fn lower_chars(v: &[char]) -> (r: Vec<char>)
    ensures
        r@ == lower(v@),
{
    let mut r: Vec<char> = Vec::new();
    let mut i: usize = 0;
    while i < v.len()
        invariant
            i <= v@.len(),
            r@ == lower(v@.take(i as int)),
        decreases v@.len() - i,
    {
        let c = v[i];
        let d: char = if 'A' <= c && c <= 'Z' {
            (c as u8 + 32) as char
        } else {
            c
        };
        r.push(d);
        i += 1;
        assert(lower(v@.take(i as int)) =~= lower(v@.take(i - 1)).push(lower_char(v@[i - 1])));
    }
    assert(v@.take(i as int) =~= v@);
    r
}

// ── Rewriting and joining ────────────────────────────────────────────────────

/// The text with every `c` replaced by `with`.
pub open spec fn replace(s: Seq<char>, c: char, with: Seq<char>) -> Seq<char>
    decreases s.len(),
{
    if s.len() == 0 {
        s
    } else {
        replace(s.drop_last(), c, with) + if s.last() == c {
            with
        } else {
            seq![s.last()]
        }
    }
}

/// The text with every `c` replaced by `with`.
pub fn replaced(s: &str, c: char, with: &str) -> (r: String)
    ensures
        r@ == replace(s@, c, with@),
{
    let v = chars_of(s);
    let mut r = String::new();
    let mut i: usize = 0;
    while i < v.len()
        invariant
            i <= v@.len(),
            r@ == replace(v@.take(i as int), c, with@),
        decreases v@.len() - i,
    {
        assert(v@.take(i + 1).drop_last() =~= v@.take(i as int));
        if v[i] == c {
            r.push_str(with);
        } else {
            r.push(v[i]);
        }
        i += 1;
    }
    assert(v@.take(i as int) =~= v@);
    r
}

/// The texts, one after another, with `sep` between each two.
pub open spec fn join(parts: Seq<Seq<char>>, sep: Seq<char>) -> Seq<char>
    decreases parts.len(),
{
    if parts.len() == 0 {
        seq![]
    } else if parts.len() == 1 {
        parts[0]
    } else {
        join(parts.drop_last(), sep) + sep + parts.last()
    }
}

/// The texts, one after another, with `sep` between each two.
pub fn joined(parts: &[String], sep: &str) -> (r: String)
    ensures
        r@ == join(texts(parts@), sep@),
{
    let mut r = String::new();
    let mut i: usize = 0;
    while i < parts.len()
        invariant
            i <= parts@.len(),
            r@ == join(texts(parts@).take(i as int), sep@),
        decreases parts@.len() - i,
    {
        if i > 0 {
            r.push_str(sep);
        }
        r.push_str(parts[i].as_str());
        i += 1;
        assert(texts(parts@).take(i as int).drop_last() =~= texts(parts@).take(i - 1));
    }
    assert(texts(parts@).take(i as int) =~= texts(parts@));
    r
}

// ── Lines and fields ─────────────────────────────────────────────────────────

/// Text without one carriage return at its end.
pub open spec fn without_return(s: Seq<char>) -> Seq<char> {
    if s.len() > 0 && s.last() == '\r' {
        s.drop_last()
    } else {
        s
    }
}

/// The lines of a text, without the line feeds, or carriage returns and line feeds, that end
/// them.
pub open spec fn lines(s: Seq<char>) -> Seq<Seq<char>>
    decreases s.len(),
{
    if s.len() == 0 {
        seq![]
    } else {
        proof {
            lemma_line_break(s, 0);
        }
        match line_break(s, 0) {
            Some(i) => seq![without_return(s.take(i))] + lines(s.skip(i + 1)),
            None => seq![s],
        }
    }
}

/// The first line feed, not before `from`.
pub open spec fn line_break(s: Seq<char>, from: int) -> Option<int>
    decreases s.len() - from,
{
    if from < 0 || from >= s.len() {
        None
    } else if s[from] == '\n' {
        Some(from)
    } else {
        line_break(s, from + 1)
    }
}

/// A line feed that was found stands in the text.
pub proof fn lemma_line_break(s: Seq<char>, from: int)
    ensures
        match line_break(s, from) {
            Some(i) => from <= i < s.len() && 0 <= i && s[i] == '\n' && forall|j: int|
                from <= j < i ==> #[trigger] s[j] != '\n',
            None => forall|j: int| 0 <= from <= j < s.len() ==> #[trigger] s[j] != '\n',
        },
    decreases s.len() - from,
{
    if 0 <= from < s.len() && s[from] != '\n' {
        lemma_line_break(s, from + 1);
    }
}

/// The text cut at every `c`.
pub open spec fn split_on(s: Seq<char>, c: char) -> Seq<Seq<char>>
    decreases s.len(),
{
    if s.len() == 0 {
        seq![seq![]]
    } else {
        let before = split_on(s.drop_last(), c);
        if s.last() == c {
            before.push(seq![])
        } else {
            before.drop_last().push(before.last().push(s.last()))
        }
    }
}

/// The lines of a text.
pub fn lines_of(s: &[char]) -> (r: Vec<String>)
    ensures
        texts(r@) == lines(s@),
{
    let mut r: Vec<String> = Vec::new();
    let mut start: usize = 0;
    let size: usize = s.len();
    assert(s@.skip(0) =~= s@);
    assert(texts(r@) + lines(s@) =~= lines(s@));
    while start < size
        invariant
            size == s@.len(),
            start <= size,
            lines(s@) == texts(r@) + lines(s@.skip(start as int)),
        decreases size - start,
    {
        let ghost rest = s@.skip(start as int);
        let mut n: usize = start;
        while n < size && s[n] != '\n'
            invariant
                size == s@.len(),
                start <= n <= size,
                rest == s@.skip(start as int),
                line_break(rest, 0) == line_break(rest, n - start),
            decreases size - n,
        {
            assert(rest[n - start] == s@[n as int]);
            n += 1;
        }
        let ghost before = texts(r@);
        if n == size {
            let line = text_between(s, start, n);
            assert(line@ =~= rest);
            r.push(line);
            assert(texts(r@) =~= before + seq![rest]);
            assert(lines(s@.skip(size as int)) =~= seq![]);
            assert(texts(r@) + lines(s@.skip(size as int)) =~= texts(r@));
            start = size;
        } else {
            assert(rest[n - start] == s@[n as int]);
            let mut end: usize = n;
            if end > start && s[end - 1] == '\r' {
                end -= 1;
            }
            let line = text_between(s, start, end);
            assert(line@ =~= without_return(rest.take(n - start)));
            r.push(line);
            assert(texts(r@) =~= before + seq![line@]);
            assert(rest.skip(n - start + 1) =~= s@.skip(n + 1));
            assert(before + (seq![line@] + lines(s@.skip(n + 1))) =~= texts(r@) + lines(
                s@.skip(n + 1),
            ));
            start = n + 1;
        }
    }
    assert(lines(s@.skip(start as int)) =~= seq![]);
    assert(texts(r@) + seq![] =~= texts(r@));
    r
}

/// The text cut at every `c`.
pub fn fields_of(s: &str, c: char) -> (r: Vec<String>)
    ensures
        texts(r@) == split_on(s@, c),
{
    let v = chars_of(s);
    let mut r: Vec<String> = Vec::new();
    let mut last = String::new();
    let mut i: usize = 0;
    assert(texts(r@).push(last@) =~= split_on(v@.take(0), c));
    while i < v.len()
        invariant
            i <= v@.len(),
            texts(r@).push(last@) == split_on(v@.take(i as int), c),
        decreases v@.len() - i,
    {
        assert(v@.take(i + 1).drop_last() =~= v@.take(i as int));
        let ghost before = texts(r@);
        let ghost piece = last@;
        assert(before.push(piece).drop_last() =~= before);
        if v[i] == c {
            r.push(last);
            last = String::new();
            assert(texts(r@) =~= before.push(piece));
        } else {
            last.push(v[i]);
        }
        i += 1;
    }
    assert(v@.take(i as int) =~= v@);
    let ghost before = texts(r@);
    let ghost piece = last@;
    r.push(last);
    assert(texts(r@) =~= before.push(piece));
    r
}

// ── Numerals ─────────────────────────────────────────────────────────────────

/// The decimal digit of a number below ten.
pub open spec fn digit(n: nat) -> char {
    (48 + n) as char
}

/// The decimal numeral of a number, without leading zeros.
pub open spec fn decimal(n: nat) -> Seq<char>
    decreases n,
{
    if n < 10 {
        seq![digit(n)]
    } else {
        decimal(n / 10).push(digit(n % 10))
    }
}

/// The decimal numeral of a number.
pub fn numeral(n: u64) -> (r: String)
    ensures
        r@ == decimal(n as nat),
    decreases n,
{
    if n < 10 {
        let mut r = String::new();
        r.push((48 + n as u8) as char);
        r
    } else {
        let mut r = numeral(n / 10);
        r.push((48 + (n % 10) as u8) as char);
        r
    }
}

/// The value of a row of decimal digits.
pub open spec fn digits_value(s: Seq<char>) -> nat
    decreases s.len(),
{
    if s.len() == 0 {
        0
    } else {
        digits_value(s.drop_last()) * 10 + (s.last() as nat - 48) as nat
    }
}

/// All of the text is decimal digits, and there is one.
pub open spec fn is_digits(s: Seq<char>) -> bool {
    s.len() > 0 && forall|i: int| 0 <= i < s.len() ==> '0' <= #[trigger] s[i] <= '9'
}

/// The number that a text is the numeral of: digits, with a plus sign in front or none.
pub open spec fn parsed_number(s: Seq<char>, max: nat) -> Option<nat> {
    let d = if s.len() > 0 && s[0] == '+' {
        s.skip(1)
    } else {
        s
    };
    if is_digits(d) && digits_value(d) <= max {
        Some(digits_value(d))
    } else {
        None
    }
}

/// More digits make no smaller number.
proof fn lemma_digits_grow(s: Seq<char>, n: int)
    requires
        0 <= n <= s.len(),
        forall|i: int| 0 <= i < s.len() ==> '0' <= #[trigger] s[i] <= '9',
    ensures
        digits_value(s.take(n)) <= digits_value(s),
    decreases s.len() - n,
{
    if n < s.len() {
        lemma_digits_grow(s, n + 1);
        assert(s.take(n + 1).drop_last() =~= s.take(n));
        assert(s.take(n + 1).last() == s[n]);
    } else {
        assert(s.take(n) =~= s);
    }
}

/// The 32-bit number that a text is the numeral of.
pub fn parse_u32(s: &str) -> (r: Option<u32>)
    ensures
        match r {
            Some(n) => parsed_number(s@, u32::MAX as nat) == Some(n as nat),
            None => parsed_number(s@, u32::MAX as nat) is None,
        },
{
    let all = chars_of(s);
    let start: usize = if all.len() > 0 && all[0] == '+' {
        1
    } else {
        0
    };
    let d = slice_subrange(all.as_slice(), start, all.len());
    assert(start == 1 ==> d@ =~= s@.skip(1));
    assert(start == 0 ==> d@ =~= s@);
    if d.len() == 0 {
        return None;
    }
    let mut n: u32 = 0;
    let mut i: usize = 0;
    assert(d@.take(0) =~= seq![]);
    while i < d.len()
        invariant
            i <= d@.len(),
            0 < d@.len(),
            start == 1 ==> d@ == s@.skip(1) && s@.len() > 0 && s@[0] == '+',
            start != 1 ==> d@ == s@ && s@[0] != '+',
            forall|j: int| 0 <= j < i ==> '0' <= #[trigger] d@[j] <= '9',
            n == digits_value(d@.take(i as int)),
        decreases d@.len() - i,
    {
        let c = d[i];
        if !('0' <= c && c <= '9') {
            assert(!is_digits(d@));
            return None;
        }
        let digit: u32 = (c as u8 - 48) as u32;
        assert(d@.take(i + 1).drop_last() =~= d@.take(i as int));
        assert(digits_value(d@.take(i + 1)) == n * 10 + digit);
        let next: u64 = n as u64 * 10 + digit as u64;
        if next > 0xffff_ffff {
            proof {
                if is_digits(d@) {
                    lemma_digits_grow(d@, i + 1);
                }
            }
            return None;
        }
        n = next as u32;
        i += 1;
    }
    assert(d@.take(i as int) =~= d@);
    Some(n)
}

// ── Laws ─────────────────────────────────────────────────────────────────────

/// All of the text is white space.
pub open spec fn blank(s: Seq<char>) -> bool {
    forall|i: int| 0 <= i < s.len() ==> is_white(#[trigger] s[i])
}

/// The text neither begins nor ends with white space, and is not empty.
pub open spec fn tight(s: Seq<char>) -> bool {
    s.len() > 0 && !is_white(s[0]) && !is_white(s.last())
}

/// White space around a text is dropped, and nothing else.
pub proof fn law_trimming_keeps_the_core(front: Seq<char>, core: Seq<char>, back: Seq<char>)
    requires
        blank(front),
        tight(core),
        blank(back),
    ensures
        trim(front + core + back) == core,
    decreases front.len() + back.len(),
{
    let s = front + core + back;
    if front.len() > 0 {
        assert(s[0] == front[0]);
        assert(s.skip(1) =~= front.skip(1) + core + back);
        assert(blank(front.skip(1)));
        law_trimming_keeps_the_core(front.skip(1), core, back);
    } else {
        assert(s[0] == core[0]);
        if back.len() > 0 {
            assert(s.last() == back.last());
            assert(s.drop_last() =~= front + core + back.drop_last());
            assert(blank(back.drop_last()));
            assert((front + core + back.drop_last())[0] == core[0]);
            law_trimming_keeps_the_core(front, core, back.drop_last());
        } else {
            assert(s =~= core);
        }
    }
}

/// White space alone trims to nothing, and only white space does.
pub proof fn law_only_white_space_trims_to_nothing(s: Seq<char>)
    ensures
        trim(s).len() == 0 <==> blank(s),
{
    lemma_trimmed(s);
    if blank(s) {
        lemma_blank_trims(s);
    }
    if trim(s).len() == 0 {
        let (a, b) = choose|a: int, b: int|
            0 <= a <= b <= s.len() && #[trigger] s.subrange(a, b) == trim(s) && blank(s.take(a))
                && blank(s.skip(b));
        assert(s.subrange(a, b).len() == b - a);
        assert forall|i: int| 0 <= i < s.len() implies is_white(#[trigger] s[i]) by {
            if i < a {
                assert(s.take(a)[i] == s[i]);
            } else {
                assert(s.skip(b)[i - b] == s[i]);
            }
        }
    }
}

proof fn lemma_blank_trims(s: Seq<char>)
    requires
        blank(s),
    ensures
        trim_start(s).len() == 0,
        trim(s).len() == 0,
    decreases s.len(),
{
    if s.len() > 0 {
        assert(is_white(s[0]));
        assert(blank(s.skip(1)));
        lemma_blank_trims(s.skip(1));
    }
}

/// A text is white space, what is left of it, and white space.
pub proof fn lemma_trimmed(s: Seq<char>)
    ensures
        exists|a: int, b: int|
            0 <= a <= b <= s.len() && #[trigger] s.subrange(a, b) == trim(s) && blank(s.take(a))
                && blank(s.skip(b)),
        trim(s).len() > 0 ==> tight(trim(s)),
{
    let a = lemma_trimmed_start(s);
    let t = trim_start(s);
    let n = lemma_trimmed_end(t);
    let b = a + n;
    assert(t.take(n) =~= s.subrange(a, b));
    assert(s.skip(b) =~= t.skip(n));
    if trim(s).len() > 0 {
        assert(trim(s)[0] == t[0]);
    }
}

proof fn lemma_trimmed_start(s: Seq<char>) -> (a: int)
    ensures
        0 <= a <= s.len(),
        trim_start(s) == s.skip(a),
        blank(s.take(a)),
        trim_start(s).len() > 0 ==> !is_white(trim_start(s)[0]),
    decreases s.len(),
{
    if s.len() > 0 && is_white(s[0]) {
        let a = lemma_trimmed_start(s.skip(1));
        assert(s.skip(1).skip(a) =~= s.skip(a + 1));
        assert forall|i: int| 0 <= i < a + 1 implies is_white(#[trigger] s.take(a + 1)[i]) by {
            if i > 0 {
                assert(s.skip(1).take(a)[i - 1] == s[i]);
            }
        }
        a + 1
    } else {
        assert(s.skip(0) =~= s);
        0
    }
}

proof fn lemma_trimmed_end(s: Seq<char>) -> (n: int)
    ensures
        0 <= n <= s.len(),
        trim_end(s) == s.take(n),
        blank(s.skip(n)),
        trim_end(s).len() > 0 ==> !is_white(trim_end(s).last()),
    decreases s.len(),
{
    if s.len() > 0 && is_white(s.last()) {
        let n = lemma_trimmed_end(s.drop_last());
        assert(s.drop_last().take(n) =~= s.take(n));
        assert forall|i: int| 0 <= i < s.len() - n implies is_white(#[trigger] s.skip(n)[i]) by {
            if i < s.len() - n - 1 {
                assert(s.drop_last().skip(n)[i] == s[n + i]);
            } else {
                assert(s.skip(n)[i] == s.last());
            }
        }
        n
    } else {
        assert(s.take(s.len() as int) =~= s);
        s.len() as int
    }
}

/// The empty text trims to nothing.
pub proof fn law_nothing_trims_to_nothing()
    ensures
        trim(seq![]).len() == 0,
{
    law_only_white_space_trims_to_nothing(seq![]);
}

/// Folding case changes the capital letters of ASCII to their small ones, 32 code points on, and
/// leaves every other character alone.
pub proof fn law_only_capitals_are_folded(s: Seq<char>, i: int)
    requires
        0 <= i < s.len(),
    ensures
        lower(s).len() == s.len(),
        65 <= s[i] as u32 <= 90 ==> lower(s)[i] as u32 == s[i] as u32 + 32,
        !(65 <= s[i] as u32 <= 90) ==> lower(s)[i] == s[i],
{
}

/// Joined texts come apart again at the separator, where none of them holds it.
pub proof fn law_joined_texts_split_back(parts: Seq<Seq<char>>, c: char)
    requires
        parts.len() > 0,
        forall|i: int| 0 <= i < parts.len() ==> !(#[trigger] parts[i]).contains(c),
    ensures
        split_on(join(parts, seq![c]), c) == parts,
    decreases parts.len(),
{
    if parts.len() == 1 {
        lemma_split_plain(seq![], parts[0], c);
        assert(seq![] + parts[0] =~= parts[0]);
        reveal_with_fuel(split_on, 2);
        assert(split_on(parts[0], c) =~= parts);
    } else {
        let fewer = parts.drop_last();
        assert forall|i: int| 0 <= i < fewer.len() implies !(#[trigger] fewer[i]).contains(c) by {
            assert(fewer[i] == parts[i]);
        }
        law_joined_texts_split_back(fewer, c);
        let head = join(fewer, seq![c]) + seq![c];
        assert(head.drop_last() =~= join(fewer, seq![c]));
        assert(split_on(head, c) =~= fewer.push(seq![]));
        assert(parts.last() == parts[parts.len() - 1]);
        lemma_split_plain(head, parts.last(), c);
        assert(split_on(join(parts, seq![c]), c) =~= parts);
    }
}

/// What holds no separator makes the last piece longer.
proof fn lemma_split_plain(head: Seq<char>, t: Seq<char>, c: char)
    requires
        !t.contains(c),
    ensures
        split_on(head, c).len() > 0,
        split_on(head + t, c) == split_on(head, c).drop_last().push(split_on(head, c).last() + t),
    decreases t.len(),
{
    lemma_split_some(head, c);
    let p = split_on(head, c);
    if t.len() == 0 {
        assert(head + t =~= head);
        assert(p.last() + t =~= p.last());
        assert(p.drop_last().push(p.last()) =~= p);
    } else {
        let u = t.drop_last();
        assert(!u.contains(c)) by {
            if u.contains(c) {
                let i = choose|i: int| 0 <= i < u.len() && u[i] == c;
                assert(t[i] == c);
            }
        }
        lemma_split_plain(head, u, c);
        assert((head + t).drop_last() =~= head + u);
        assert((head + t).last() == t.last());
        assert(t.contains(t.last())) by {
            assert(t[t.len() - 1] == t.last());
        }
        let q = split_on(head + u, c);
        assert(q.drop_last() =~= p.drop_last());
        assert(q.last() == p.last() + u);
        assert((p.last() + u).push(t.last()) =~= p.last() + t);
    }
}

proof fn lemma_split_some(s: Seq<char>, c: char)
    ensures
        split_on(s, c).len() > 0,
    decreases s.len(),
{
    if s.len() > 0 {
        lemma_split_some(s.drop_last(), c);
    }
}

/// One more text is appended behind a separator, unless it is the first.
pub proof fn law_joining_appends(parts: Seq<Seq<char>>, more: Seq<char>, sep: Seq<char>)
    ensures
        parts.len() > 0 ==> join(parts.push(more), sep) == join(parts, sep) + sep + more,
        parts.len() == 0 ==> join(parts.push(more), sep) == more,
{
    assert(parts.push(more).drop_last() =~= parts);
}

/// No texts join to nothing.
pub proof fn law_joining_nothing(sep: Seq<char>)
    ensures
        join(seq![], sep) == Seq::<char>::empty(),
{
}

/// A numeral stands for its number: it is made of digits, has no leading zero, and its digits,
/// weighed by tens, come to the number.
pub proof fn law_numerals_read_back(n: nat)
    ensures
        digits_value(decimal(n)) == n,
        is_digits(decimal(n)),
        decimal(n).len() > 1 ==> decimal(n)[0] != '0',
    decreases n,
{
    reveal_with_fuel(digits_value, 2);
    if n < 10 {
        assert(seq![digit(n)].drop_last() =~= seq![]);
        assert(digit(n) as nat == 48 + n);
    } else {
        law_numerals_read_back(n / 10);
        let d = decimal(n);
        assert(d.drop_last() =~= decimal(n / 10));
        assert(digit(n % 10) as nat == 48 + n % 10);
        assert(d[0] == decimal(n / 10)[0]);
        if n / 10 < 10 {
            assert(decimal(n / 10)[0] == digit(n / 10));
        }
    }
}

/// Digits weigh ten times as much for each digit behind them.
pub proof fn law_digits_weigh_by_tens(s: Seq<char>, c: char)
    requires
        '0' <= c <= '9',
    ensures
        digits_value(s.push(c)) == digits_value(s) * 10 + (c as nat - 48),
        digits_value(seq![]) == 0,
{
    assert(s.push(c).drop_last() =~= s);
}

/// A number that was written out is read back, with a plus sign in front or without.
pub proof fn law_written_numbers_parse(n: nat, max: nat)
    ensures
        parsed_number(decimal(n), max) == if n <= max {
            Some(n)
        } else {
            None
        },
        parsed_number(seq!['+'] + decimal(n), max) == parsed_number(decimal(n), max),
{
    law_numerals_read_back(n);
    let d = decimal(n);
    assert('0' <= d[0] <= '9');
    assert((seq!['+'] + d).skip(1) =~= d);
}

/// What is no row of digits is no number.
pub proof fn law_only_digits_parse(s: Seq<char>, max: nat, i: int)
    requires
        0 <= i < s.len(),
        !('0' <= s[i] <= '9'),
        i > 0 || s[0] != '+',
    ensures
        parsed_number(s, max) is None,
        parsed_number(seq![], max) is None,
{
    if s[0] == '+' {
        assert(s.skip(1)[i - 1] == s[i]);
    }
}

/// A replacement concerns the character that is replaced, wherever it stands, and no other.
pub proof fn law_replacing_goes_by_character(a: Seq<char>, b: Seq<char>, c: char, with: Seq<char>)
    ensures
        replace(a + b, c, with) == replace(a, c, with) + replace(b, c, with),
        replace(seq![c], c, with) == with,
        !a.contains(c) ==> replace(a, c, with) == a,
    decreases b.len(),
{
    reveal_with_fuel(replace, 2);
    assert(seq![c].drop_last() =~= seq![]);
    assert(replace(seq![c], c, with) =~= with);
    if !a.contains(c) {
        lemma_replace_plain(a, c, with);
    }
    if b.len() == 0 {
        assert(a + b =~= a);
        assert(replace(a, c, with) + replace(b, c, with) =~= replace(a, c, with));
    } else {
        assert((a + b).drop_last() =~= a + b.drop_last());
        law_replacing_goes_by_character(a, b.drop_last(), c, with);
        assert(replace(a + b, c, with) =~= replace(a, c, with) + replace(b, c, with));
    }
}

proof fn lemma_replace_plain(s: Seq<char>, c: char, with: Seq<char>)
    requires
        !s.contains(c),
    ensures
        replace(s, c, with) == s,
    decreases s.len(),
{
    if s.len() > 0 {
        let t = s.drop_last();
        if t.contains(c) {
            let i = choose|i: int| 0 <= i < t.len() && t[i] == c;
            assert(s[i] == c);
        }
        lemma_replace_plain(t, c, with);
        assert(s[s.len() - 1] != c);
        assert(replace(s, c, with) =~= s);
    }
}

/// A text falls into lines at its line feeds: a first line, with or without a carriage return at
/// its end, and the lines of the rest.
pub proof fn law_lines_are_cut_at_line_feeds(line: Seq<char>, rest: Seq<char>)
    requires
        !line.contains('\n'),
    ensures
        line.len() == 0 || line.last() != '\r' ==> lines(line + seq!['\n'] + rest) == seq![line]
            + lines(rest),
        lines(line + seq!['\r', '\n'] + rest) == seq![line] + lines(rest),
        line.len() > 0 ==> lines(line) == seq![line],
        lines(seq![]) == Seq::<Seq<char>>::empty(),
{
    let n = line.len() as int;
    let s = line + seq!['\n'] + rest;
    lemma_line_break(s, 0);
    assert(s[n] == '\n');
    assert forall|j: int| 0 <= j < n implies #[trigger] s[j] != '\n' by {
        assert(line.contains(line[j]));
    }
    assert(line_break(s, 0) == Some(n));
    assert(s.take(n) =~= line);
    assert(s.skip(n + 1) =~= rest);
    let t = line + seq!['\r', '\n'] + rest;
    lemma_line_break(t, 0);
    assert(t[n + 1] == '\n');
    assert forall|j: int| 0 <= j < n + 1 implies #[trigger] t[j] != '\n' by {
        if j < n {
            assert(line.contains(line[j]));
        }
    }
    assert(line_break(t, 0) == Some(n + 1));
    assert(t.take(n + 1) =~= line.push('\r'));
    assert(line.push('\r').drop_last() =~= line);
    assert(t.skip(n + 2) =~= rest);
    lemma_line_break(line, 0);
    if let Some(i) = line_break(line, 0) {
        assert(line.contains(line[i]));
    }
}

/// A text that begins a line among others has its lines among theirs.
pub proof fn lemma_line_among(before: Seq<char>, rest: Seq<char>, line: Seq<char>)
    requires
        before.len() == 0 || before.last() == '\n',
        lines(rest).contains(line),
    ensures
        lines(before + rest).contains(line),
    decreases before.len(),
{
    if before.len() == 0 {
        assert(before + rest =~= rest);
    } else {
        lemma_line_break(before, 0);
        let i = line_break(before, 0)->0;
        assert(before[before.len() - 1] == '\n');
        let s = before + rest;
        lemma_line_break(s, 0);
        let k = line_break(s, 0)->0;
        assert(s[i] == '\n');
        assert(k == i) by {
            if k < i {
                assert(before[k] == s[k]);
            }
        }
        let more = before.skip(i + 1);
        assert(s.skip(i + 1) =~= more + rest);
        lemma_line_among(more, rest, line);
        let first = seq![without_return(s.take(i))];
        let j = choose|j: int|
            0 <= j < lines(more + rest).len() && lines(more + rest)[j] == line;
        assert((first + lines(more + rest))[j + 1] == line);
    }
}


/// Lists of texts are seen one by one, in order.
pub proof fn law_texts_are_seen_in_order(owned: Seq<String>, borrowed: Seq<&str>, i: int)
    ensures
        texts(owned).len() == owned.len(),
        0 <= i < owned.len() ==> texts(owned)[i] == owned[i]@,
        strs(borrowed).len() == borrowed.len(),
        0 <= i < borrowed.len() ==> strs(borrowed)[i] == borrowed[i]@,
{
}

} // verus!
