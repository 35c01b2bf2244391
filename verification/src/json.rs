//! JSON values and the compact text they are written as.

use vstd::prelude::*;
use vstd::string::*;
use vstd::utf8::char_u32_cast;

use crate::text::join;

verus! {

// ── Model ────────────────────────────────────────────────────────────────────

/// A JSON value. A number is its numeral; an object lists its members in the order in which
/// they are written.
pub ghost enum Json {
    Null,
    Bool(bool),
    Number(Seq<char>),
    Text(Seq<char>),
    Array(Seq<Json>),
    Object(Seq<(Seq<char>, Json)>),
}

/// The lower-case hexadecimal digit of a number below sixteen.
pub open spec fn hex_digit(n: int) -> char {
    if n < 10 {
        (48 + n) as char
    } else {
        (87 + n) as char
    }
}

/// How one character stands inside a JSON string.
pub open spec fn escaped_char(c: char) -> Seq<char> {
    if c == '"' {
        seq!['\\', '"']
    } else if c == '\\' {
        seq!['\\', '\\']
    } else if c as u32 == 8 {
        seq!['\\', 'b']
    } else if c as u32 == 9 {
        seq!['\\', 't']
    } else if c as u32 == 10 {
        seq!['\\', 'n']
    } else if c as u32 == 12 {
        seq!['\\', 'f']
    } else if c as u32 == 13 {
        seq!['\\', 'r']
    } else if (c as u32) < 32 {
        seq!['\\', 'u', '0', '0', hex_digit(c as u32 as int / 16), hex_digit(c as u32 as int % 16)]
    } else {
        seq![c]
    }
}

/// How a text stands inside a JSON string.
pub open spec fn escaped(s: Seq<char>) -> Seq<char>
    decreases s.len(),
{
    if s.len() == 0 {
        seq![]
    } else {
        escaped(s.drop_last()) + escaped_char(s.last())
    }
}

/// A text as a JSON string, quotation marks included.
pub open spec fn quoted(s: Seq<char>) -> Seq<char> {
    seq!['"'] + escaped(s) + seq!['"']
}

/// What stands in front of the `i`-th item of a list or an object.
pub open spec fn comma(i: nat) -> Seq<char> {
    if i == 0 {
        seq![]
    } else {
        seq![',']
    }
}

/// The compact text of a JSON value: no white space between its parts.
pub open spec fn compact(v: Json) -> Seq<char>
    decreases v, 0nat,
{
    match v {
        Json::Null => seq!['n', 'u', 'l', 'l'],
        Json::Bool(true) => seq!['t', 'r', 'u', 'e'],
        Json::Bool(false) => seq!['f', 'a', 'l', 's', 'e'],
        Json::Number(n) => n,
        Json::Text(s) => quoted(s),
        Json::Array(items) => seq!['['] + compact_items(items, items.len()) + seq![']'],
        Json::Object(members) => seq!['{'] + compact_members(members, members.len()) + seq!['}'],
    }
}

/// The first `n` items of a list, with commas between them.
pub open spec fn compact_items(items: Seq<Json>, n: nat) -> Seq<char>
    decreases items, n,
{
    if n == 0 || n > items.len() {
        seq![]
    } else {
        compact_items(items, (n - 1) as nat) + comma((n - 1) as nat) + compact(items[n - 1])
    }
}

/// The first `n` members of an object, with commas between them.
pub open spec fn compact_members(members: Seq<(Seq<char>, Json)>, n: nat) -> Seq<char>
    decreases members, n,
{
    if n == 0 || n > members.len() {
        seq![]
    } else {
        compact_members(members, (n - 1) as nat) + comma((n - 1) as nat) + quoted(
            members[n - 1].0,
        ) + seq![':'] + compact(members[n - 1].1)
    }
}

// ── Values ───────────────────────────────────────────────────────────────────

/// A JSON value.
#[derive(Debug)]
pub enum JsonValue {
    Null,
    Bool(bool),
    Number(String),
    Text(String),
    Array(Vec<JsonValue>),
    Object(Vec<(String, JsonValue)>),
}

/// The first `n` items of a list of values.
pub open spec fn items_view(items: Vec<JsonValue>, n: nat) -> Seq<Json>
    decreases items, n,
{
    if n == 0 || n > items@.len() {
        seq![]
    } else {
        items_view(items, (n - 1) as nat).push(value_view(items[n - 1]))
    }
}

/// The first `n` members of a list of members.
pub open spec fn members_view(members: Vec<(String, JsonValue)>, n: nat) -> Seq<
    (Seq<char>, Json),
>
    decreases members, n,
{
    if n == 0 || n > members@.len() {
        seq![]
    } else {
        members_view(members, (n - 1) as nat).push(
            (members[n - 1].0@, value_view(members[n - 1].1)),
        )
    }
}

/// The value that a `JsonValue` stands for.
pub open spec fn value_view(v: JsonValue) -> Json
    decreases v, 0nat,
{
    match v {
        JsonValue::Null => Json::Null,
        JsonValue::Bool(b) => Json::Bool(b),
        JsonValue::Number(n) => Json::Number(n@),
        JsonValue::Text(s) => Json::Text(s@),
        JsonValue::Array(items) => Json::Array(items_view(items, items@.len())),
        JsonValue::Object(members) => Json::Object(members_view(members, members@.len())),
    }
}

impl View for JsonValue {
    type V = Json;

    open spec fn view(&self) -> Json {
        value_view(*self)
    }
}

/// `serde_json::to_string` on a string: the text between quotation marks, with the quotation
/// mark, the backslash and the control characters below the space escaped.
#[verifier::external_body]
pub(crate) fn quote(s: &str) -> (r: String)
    ensures
        r@ == quoted(s@),
{
    serde_json::to_string(s).expect("a string can be written as JSON")
}

impl JsonValue {
    /// A value equal to this one.
    pub fn copy(&self) -> (r: JsonValue)
        ensures
            r@ == self@,
        decreases *self,
    {
        match self {
            JsonValue::Null => JsonValue::Null,
            JsonValue::Bool(b) => JsonValue::Bool(*b),
            JsonValue::Number(n) => JsonValue::Number(n.clone()),
            JsonValue::Text(s) => JsonValue::Text(s.clone()),
            JsonValue::Array(items) => {
                let mut out: Vec<JsonValue> = Vec::new();
                let mut i: usize = 0;
                while i < items.len()
                    invariant
                        i <= items@.len(),
                        out@.len() == i,
                        *self == JsonValue::Array(*items),
                        items_view(out, i as nat) == items_view(*items, i as nat),
                    decreases items@.len() - i,
                {
                    assert(decreases_to!(*self => self->Array_0));
                    assert(decreases_to!(*items => items[i as int]));
                    let item = items[i].copy();
                    let ghost before = out;
                    out.push(item);
                    proof {
                        lemma_items_view(before, out, i as nat);
                    }
                    i += 1;
                }
                JsonValue::Array(out)
            },
            JsonValue::Object(members) => {
                let mut out: Vec<(String, JsonValue)> = Vec::new();
                let mut i: usize = 0;
                while i < members.len()
                    invariant
                        i <= members@.len(),
                        out@.len() == i,
                        *self == JsonValue::Object(*members),
                        members_view(out, i as nat) == members_view(*members, i as nat),
                    decreases members@.len() - i,
                {
                    assert(decreases_to!(*self => self->Object_0));
                    assert(decreases_to!(*members => members[i as int]));
                    let value = members[i].1.copy();
                    let name = members[i].0.clone();
                    let ghost before = out;
                    out.push((name, value));
                    proof {
                        lemma_members_view(before, out, i as nat);
                    }
                    i += 1;
                }
                JsonValue::Object(out)
            },
        }
    }

    /// The compact text of the value.
    pub fn to_text(&self) -> (r: String)
        ensures
            r@ == compact(self@),
        decreases *self,
    {
        match self {
            JsonValue::Null => {
                proof {
                    reveal_strlit("null");
                }
                let r = "null".to_string();
                assert(r@ =~= compact(self@));
                r
            },
            JsonValue::Bool(b) => {
                proof {
                    reveal_strlit("true");
                    reveal_strlit("false");
                }
                let r = if *b {
                    "true".to_string()
                } else {
                    "false".to_string()
                };
                assert(r@ =~= compact(self@));
                r
            },
            JsonValue::Number(n) => n.clone(),
            JsonValue::Text(s) => quote(s.as_str()),
            JsonValue::Array(items) => {
                let mut r = String::new();
                r.push('[');
                let ghost all = items_view(*items, items@.len());
                let mut i: usize = 0;
                proof {
                    lemma_items_index(*items, items@.len());
                }
                while i < items.len()
                    invariant
                        i <= items@.len(),
                        *self == JsonValue::Array(*items),
                        all.len() == items@.len(),
                        forall|j: int| 0 <= j < items@.len() ==> #[trigger] all[j] == value_view(
                            items@[j],
                        ),
                        r@ == seq!['['] + compact_items(all, i as nat),
                    decreases items@.len() - i,
                {
                    if i > 0 {
                        r.push(',');
                    }
                    assert(decreases_to!(*self => self->Array_0));
                    assert(decreases_to!(*items => items[i as int]));
                    let item = items[i].to_text();
                    r.push_str(item.as_str());
                    i += 1;
                    assert(r@ =~= seq!['['] + compact_items(all, i as nat));
                }
                r.push(']');
                assert(r@ =~= compact(self@));
                r
            },
            JsonValue::Object(members) => {
                let mut r = String::new();
                r.push('{');
                let ghost all = members_view(*members, members@.len());
                let mut i: usize = 0;
                proof {
                    lemma_members_index(*members, members@.len());
                }
                while i < members.len()
                    invariant
                        i <= members@.len(),
                        *self == JsonValue::Object(*members),
                        all.len() == members@.len(),
                        forall|j: int| 0 <= j < members@.len() ==> #[trigger] all[j] == (
                            members@[j].0@,
                            value_view(members@[j].1),
                        ),
                        r@ == seq!['{'] + compact_members(all, i as nat),
                    decreases members@.len() - i,
                {
                    if i > 0 {
                        r.push(',');
                    }
                    let name = quote(members[i].0.as_str());
                    r.push_str(name.as_str());
                    r.push(':');
                    assert(decreases_to!(*self => self->Object_0));
                    assert(decreases_to!(*members => members[i as int]));
                    let value = members[i].1.to_text();
                    r.push_str(value.as_str());
                    i += 1;
                    assert(r@ =~= seq!['{'] + compact_members(all, i as nat));
                }
                r.push('}');
                assert(r@ =~= compact(self@));
                r
            },
        }
    }
}

impl Clone for JsonValue {
    fn clone(&self) -> (r: Self)
        ensures
            r@ == self@,
    {
        self.copy()
    }
}

/// What the items of a list are, one by one.
proof fn lemma_items_index(items: Vec<JsonValue>, n: nat)
    requires
        n <= items@.len(),
    ensures
        items_view(items, n).len() == n,
        forall|j: int| 0 <= j < n ==> #[trigger] items_view(items, n)[j] == value_view(items@[j]),
    decreases n,
{
    if n > 0 {
        lemma_items_index(items, (n - 1) as nat);
    }
}

/// What the members of an object are, one by one.
proof fn lemma_members_index(members: Vec<(String, JsonValue)>, n: nat)
    requires
        n <= members@.len(),
    ensures
        members_view(members, n).len() == n,
        forall|j: int| 0 <= j < n ==> #[trigger] members_view(members, n)[j] == (
            members@[j].0@,
            value_view(members@[j].1),
        ),
    decreases n,
{
    if n > 0 {
        lemma_members_index(members, (n - 1) as nat);
    }
}

/// A further item leaves the items before it as they are.
proof fn lemma_items_view(a: Vec<JsonValue>, b: Vec<JsonValue>, n: nat)
    requires
        n <= a@.len() <= b@.len(),
        forall|j: int| 0 <= j < n ==> a@[j] == b@[j],
    ensures
        items_view(a, n) == items_view(b, n),
    decreases n,
{
    if n > 0 {
        lemma_items_view(a, b, (n - 1) as nat);
    }
}

/// A further member leaves the members before it as they are.
proof fn lemma_members_view(a: Vec<(String, JsonValue)>, b: Vec<(String, JsonValue)>, n: nat)
    requires
        n <= a@.len() <= b@.len(),
        forall|j: int| 0 <= j < n ==> a@[j] == b@[j],
    ensures
        members_view(a, n) == members_view(b, n),
    decreases n,
{
    if n > 0 {
        lemma_members_view(a, b, (n - 1) as nat);
    }
}

// ── Laws ─────────────────────────────────────────────────────────────────────

/// The number of a lower-case hexadecimal digit.
pub open spec fn hex_value(c: char) -> int {
    if '0' <= c <= '9' {
        c as u32 as int - 48
    } else {
        c as u32 as int - 87
    }
}

/// The character that a single letter behind a backslash stands for.
pub open spec fn unescaped_char(c: char) -> char {
    if c == 'b' {
        8u8 as char
    } else if c == 't' {
        9u8 as char
    } else if c == 'n' {
        10u8 as char
    } else if c == 'f' {
        12u8 as char
    } else if c == 'r' {
        13u8 as char
    } else {
        c
    }
}

/// The text that a reader finds between the quotation marks of a JSON string; nothing where a
/// quotation mark ends the string early, or an escape is cut short.
pub open spec fn unescaped(s: Seq<char>) -> Option<Seq<char>>
    decreases s.len(),
{
    if s.len() == 0 {
        Some(seq![])
    } else if s[0] == '"' {
        None
    } else if s[0] != '\\' {
        match unescaped(s.skip(1)) {
            Some(rest) => Some(seq![s[0]] + rest),
            None => None,
        }
    } else if s.len() >= 6 && s[1] == 'u' {
        match unescaped(s.skip(6)) {
            Some(rest) => Some(
                seq![(hex_value(s[4]) * 16 + hex_value(s[5])) as u8 as char] + rest,
            ),
            None => None,
        }
    } else if s.len() >= 2 && s[1] != 'u' {
        match unescaped(s.skip(2)) {
            Some(rest) => Some(seq![unescaped_char(s[1])] + rest),
            None => None,
        }
    } else {
        None
    }
}

/// Escaping goes character by character from the front, too.
proof fn lemma_escaped_front(s: Seq<char>)
    requires
        s.len() > 0,
    ensures
        escaped(s) == escaped_char(s[0]) + escaped(s.skip(1)),
    decreases s.len(),
{
    if s.len() == 1 {
        assert(s.drop_last() =~= seq![]);
        assert(s.skip(1) =~= seq![]);
        assert(escaped(s) =~= escaped_char(s[0]) + escaped(s.skip(1)));
    } else {
        let t = s.drop_last();
        lemma_escaped_front(t);
        assert(t.skip(1) =~= s.skip(1).drop_last());
        assert(s.skip(1).last() == s.last());
        assert(escaped(s) =~= escaped_char(s[0]) + escaped(s.skip(1)));
    }
}

/// Whatever a text holds, a reader finds it again between the quotation marks.
pub proof fn law_escaped_text_reads_back(s: Seq<char>)
    ensures
        unescaped(escaped(s)) == Some(s),
    decreases s.len(),
{
    if s.len() == 0 {
        assert(s =~= seq![]);
    } else {
        let c = s[0];
        let rest = escaped(s.skip(1));
        let e = escaped(s);
        lemma_escaped_front(s);
        law_escaped_text_reads_back(s.skip(1));
        assert(seq![c] + s.skip(1) =~= s);
        let n = escaped_char(c).len() as int;
        assert(e.skip(n) =~= rest);
        char_u32_cast(c, c as u32);
        if (c as u32) < 32 && n == 6 {
            assert(e[4] == hex_digit(c as u32 as int / 16));
            assert(e[5] == hex_digit(c as u32 as int % 16));
            assert(hex_value(e[4]) * 16 + hex_value(e[5]) == c as u32);
        }
    }
}

/// A text without anything to escape stands between quotation marks as it is.
pub proof fn lemma_quoted_plain(s: Seq<char>)
    requires
        forall|i: int|
            0 <= i < s.len() ==> #[trigger] s[i] as u32 >= 32 && s[i] != '"' && s[i] != '\\',
    ensures
        quoted(s) == seq!['"'] + s + seq!['"'],
{
    lemma_escaped_plain(s);
}

proof fn lemma_escaped_plain(s: Seq<char>)
    requires
        forall|i: int|
            0 <= i < s.len() ==> #[trigger] s[i] as u32 >= 32 && s[i] != '"' && s[i] != '\\',
    ensures
        escaped(s) == s,
    decreases s.len(),
{
    if s.len() > 0 {
        let t = s.drop_last();
        assert forall|i: int| 0 <= i < t.len() implies #[trigger] t[i] as u32 >= 32 && t[i] != '"'
            && t[i] != '\\' by {
            assert(s[i] == t[i]);
        }
        lemma_escaped_plain(t);
        assert(s[s.len() - 1] as u32 >= 32);
        assert(escaped(s) =~= s);
    } else {
        assert(escaped(s) =~= s);
    }
}

/// A list is its items, written out in order, with commas between them, in square brackets.
pub proof fn law_lists_are_written_item_by_item(items: Seq<Json>)
    ensures
        compact(Json::Array(items)) == seq!['['] + join(
            items.map_values(|v: Json| compact(v)),
            seq![','],
        ) + seq![']'],
{
    lemma_items(items, items.len());
    assert(items.take(items.len() as int) =~= items);
}

proof fn lemma_items(items: Seq<Json>, n: nat)
    requires
        n <= items.len(),
    ensures
        compact_items(items, n) == join(
            items.take(n as int).map_values(|v: Json| compact(v)),
            seq![','],
        ),
    decreases n,
{
    let texts = items.take(n as int).map_values(|v: Json| compact(v));
    if n > 0 {
        lemma_items(items, (n - 1) as nat);
        let fewer = items.take(n - 1).map_values(|v: Json| compact(v));
        assert(texts =~= fewer.push(compact(items[n - 1])));
        crate::text::law_joining_appends(fewer, compact(items[n - 1]), seq![',']);
        assert(compact_items(items, n) =~= join(texts, seq![',']));
    } else {
        assert(texts =~= seq![]);
    }
}

/// An object is its members, written out in order, each a quoted name, a colon and the value, with
/// commas between them, in curly brackets.
pub proof fn law_objects_are_written_member_by_member(members: Seq<(Seq<char>, Json)>)
    ensures
        compact(Json::Object(members)) == seq!['{'] + join(
            members.map_values(
                |m: (Seq<char>, Json)|
                    compact(Json::Text(m.0)) + seq![':'] + compact(m.1),
            ),
            seq![','],
        ) + seq!['}'],
{
    lemma_members(members, members.len());
    assert(members.take(members.len() as int) =~= members);
}

proof fn lemma_members(members: Seq<(Seq<char>, Json)>, n: nat)
    requires
        n <= members.len(),
    ensures
        compact_members(members, n) == join(
            members.take(n as int).map_values(
                |m: (Seq<char>, Json)|
                    compact(Json::Text(m.0)) + seq![':'] + compact(m.1),
            ),
            seq![','],
        ),
    decreases n,
{
    let write = |m: (Seq<char>, Json)| compact(Json::Text(m.0)) + seq![':'] + compact(m.1);
    let texts = members.take(n as int).map_values(write);
    if n > 0 {
        lemma_members(members, (n - 1) as nat);
        let fewer = members.take(n - 1).map_values(write);
        let last = write(members[n - 1]);
        assert(texts =~= fewer.push(last));
        crate::text::law_joining_appends(fewer, last, seq![',']);
        assert(compact_members(members, n) =~= join(texts, seq![',']));
    } else {
        assert(texts =~= seq![]);
    }
}

/// The plain values are written as JSON has them, and a number as its numeral.
pub proof fn law_plain_values_are_written_as_they_are(n: Seq<char>)
    ensures
        compact(Json::Null) == "null"@,
        compact(Json::Bool(true)) == "true"@,
        compact(Json::Bool(false)) == "false"@,
        compact(Json::Number(n)) == n,
{
    reveal_strlit("null");
    reveal_strlit("true");
    reveal_strlit("false");
    assert(compact(Json::Null) =~= "null"@);
    assert(compact(Json::Bool(true)) =~= "true"@);
    assert(compact(Json::Bool(false)) =~= "false"@);
}

/// A value is what its parts are, each in its place.
pub proof fn law_values_are_what_their_parts_are(v: JsonValue)
    ensures
        match v {
            JsonValue::Null => v@ is Null,
            JsonValue::Bool(b) => v@ == Json::Bool(b),
            JsonValue::Number(n) => v@ == Json::Number(n@),
            JsonValue::Text(s) => v@ == Json::Text(s@),
            JsonValue::Array(items) => {
                &&& v@ is Array
                &&& v@->Array_0.len() == items@.len()
                &&& forall|i: int|
                    0 <= i < items@.len() ==> #[trigger] v@->Array_0[i] == items@[i]@
            },
            JsonValue::Object(members) => {
                &&& v@ is Object
                &&& v@->Object_0.len() == members@.len()
                &&& forall|i: int|
                    0 <= i < members@.len() ==> #[trigger] v@->Object_0[i] == (
                        members@[i].0@,
                        members@[i].1@,
                    )
            },
        },
{
    match v {
        JsonValue::Array(items) => {
            lemma_items_in_place(items, items@.len());
        },
        JsonValue::Object(members) => {
            lemma_members_in_place(members, members@.len());
        },
        _ => {},
    }
}

proof fn lemma_items_in_place(items: Vec<JsonValue>, n: nat)
    requires
        n <= items@.len(),
    ensures
        items_view(items, n).len() == n,
        forall|i: int| 0 <= i < n ==> #[trigger] items_view(items, n)[i] == value_view(items@[i]),
    decreases n,
{
    if n > 0 {
        lemma_items_in_place(items, (n - 1) as nat);
    }
}

proof fn lemma_members_in_place(members: Vec<(String, JsonValue)>, n: nat)
    requires
        n <= members@.len(),
    ensures
        members_view(members, n).len() == n,
        forall|i: int|
            0 <= i < n ==> #[trigger] members_view(members, n)[i] == (
                members@[i].0@,
                value_view(members@[i].1),
            ),
    decreases n,
{
    if n > 0 {
        lemma_members_in_place(members, (n - 1) as nat);
    }
}

/// A value is written out whole, and copied whole.
pub proof fn law_values_are_written_whole(v: &JsonValue, text: String, copy: JsonValue)
    requires
        call_ensures(JsonValue::to_text, (v,), text),
        call_ensures(JsonValue::copy, (v,), copy),
    ensures
        text@ == compact(v@),
        copy@ == v@,
{
}

/// A text is written character by character, and each as it is but for quotation marks, backslashes
/// and control characters.
pub proof fn law_only_what_must_be_is_escaped(a: Seq<char>, b: Seq<char>, c: char)
    ensures
        escaped(a + b) == escaped(a) + escaped(b),
        escaped(seq![c]) == match c {
            '"' => seq!['\\', '"'],
            '\\' => seq!['\\', '\\'],
            '\n' => seq!['\\', 'n'],
            '\r' => seq!['\\', 'r'],
            '\t' => seq!['\\', 't'],
            _ => if c as u32 == 8 {
                seq!['\\', 'b']
            } else if c as u32 == 12 {
                seq!['\\', 'f']
            } else if (c as u32) < 16 {
                seq!['\\', 'u', '0', '0', '0', hex_digit(c as u32 as int)]
            } else if (c as u32) < 32 {
                seq!['\\', 'u', '0', '0', '1', hex_digit(c as u32 - 16)]
            } else {
                seq![c]
            },
        },
        compact(Json::Text(a)) == seq!['"'] + escaped(a) + seq!['"'],
{
    lemma_escaped_concat(a, b);
    let one = seq![c];
    let none: Seq<char> = seq![];
    assert(one.drop_last() =~= none);
    assert(escaped(none) =~= none);
    assert(escaped(one) =~= escaped_char(c));
    assert('\n' as u32 == 10 && '\r' as u32 == 13 && '\t' as u32 == 9);
    vstd::utf8::char_u32_cast(c, c as u32);
    assert((c as u32) < 16 ==> c as u32 as int / 16 == 0 && c as u32 as int % 16 == c as u32);
    assert(16 <= c as u32 && (c as u32) < 32 ==> c as u32 as int / 16 == 1 && c as u32 as int % 16
        == c as u32 - 16);
    assert(escaped_char(c) =~= escaped(one));
}

proof fn lemma_escaped_concat(a: Seq<char>, b: Seq<char>)
    ensures
        escaped(a + b) == escaped(a) + escaped(b),
    decreases b.len(),
{
    if b.len() == 0 {
        assert(a + b =~= a);
        assert(escaped(a) + escaped(b) =~= escaped(a));
    } else {
        assert((a + b).drop_last() =~= a + b.drop_last());
        lemma_escaped_concat(a, b.drop_last());
        assert(escaped(a + b) =~= escaped(a) + escaped(b));
    }
}

} // verus!
