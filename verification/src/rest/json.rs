//! A plain model of a decoded JSON document, as the strict parser produces it.

use vstd::prelude::*;

use crate::rest::boundary::WireFormatError;
use crate::text::{
    chars_lt, chars_of, decimal, decimal_string, lemma_seq_lt_order, seq_lt, signed_decimal, signed_decimal_string,
};

verus! {

/// A JSON number: a non-negative integer, a negative integer, or any other
/// finite number, kept as its canonical text.
#[derive(Debug, PartialEq, Eq)]
pub enum JsonNumber {
    PosInt(u64),
    NegInt(i64),
    Other(String),
}

/// A decoded JSON value. Object members keep the order the parser reports
/// them in; keys are unique.
#[derive(Debug, PartialEq, Eq)]
pub enum JsonValue {
    Null,
    Bool(bool),
    Number(JsonNumber),
    String(String),
    Array(Vec<JsonValue>),
    Object(Vec<(String, JsonValue)>),
}

/// The position of the first member of `members` named `key`, or `-1`.
pub open spec fn member_index(members: Seq<(String, JsonValue)>, key: Seq<char>) -> int
    decreases members.len(),
{
    if members.len() == 0 {
        -1
    } else if members[0].0@ == key {
        0
    } else {
        let rest = member_index(members.drop_first(), key);
        if rest < 0 {
            -1
        } else {
            rest + 1
        }
    }
}

pub proof fn lemma_member_index(members: Seq<(String, JsonValue)>, key: Seq<char>)
    ensures
        -1 <= member_index(members, key) < members.len(),
        member_index(members, key) >= 0 ==> members[member_index(members, key)].0@ == key,
        member_index(members, key) >= 0 ==> forall|j: int|
            0 <= j < member_index(members, key) ==> #[trigger] members[j].0@ != key,
        member_index(members, key) < 0 ==> forall|j: int|
            0 <= j < members.len() ==> #[trigger] members[j].0@ != key,
    decreases members.len(),
{
    if members.len() > 0 && members[0].0@ != key {
        lemma_member_index(members.drop_first(), key);
        assert forall|j: int| 1 <= j < members.len() implies members[j] == members.drop_first()[j - 1] by {}
    }
}

/// The first member of `members` named `key`.
pub fn find_member<'a>(members: &'a Vec<(String, JsonValue)>, key: &str) -> (r: Option<&'a JsonValue>)
    ensures
        member_index(members@, key@) < 0 <==> r is None,
        r matches Some(v) ==> *v == members@[member_index(members@, key@)].1,
{
    proof {
        lemma_member_index(members@, key@);
    }
    let mut i: usize = 0;
    while i < members.len()
        invariant
            i <= members.len(),
            -1 <= member_index(members@, key@) < members@.len(),
            member_index(members@, key@) >= 0 ==> members@[member_index(members@, key@)].0@
                == key@,
            member_index(members@, key@) >= 0 ==> forall|j: int|
                0 <= j < member_index(members@, key@) ==> #[trigger] members@[j].0@ != key@,
            member_index(members@, key@) < 0 ==> forall|j: int|
                0 <= j < members@.len() ==> #[trigger] members@[j].0@ != key@,
            forall|j: int| 0 <= j < i ==> #[trigger] members@[j].0@ != key@,
        decreases members.len() - i,
    {
        if string_eq(members[i].0.as_str(), key) {
            assert(members@[i as int].0@ == key@);
            return Some(&members[i].1);
        }
        i = i + 1;
    }
    None
}

/// Whether the keys of `members` strictly ascend by character order, the
/// order `serde_json`'s map keeps an object's members in.
pub open spec fn keys_ascending(members: Seq<(String, JsonValue)>) -> bool {
    forall|i: int, j: int|
        0 <= i < j < members.len() ==> seq_lt(#[trigger] members[i].0@, #[trigger] members[j].0@)
}

/// Adds the member `key: value` to an object being read strictly: a key
/// that is already there is a duplicate and rejected, leaving `members`
/// unchanged; otherwise the member goes where its key keeps the keys
/// ascending.
pub fn add_member(members: &mut Vec<(String, JsonValue)>, key: String, value: JsonValue) -> (r: Result<
    (),
    WireFormatError,
>)
    ensures
        r is Err <==> member_index(old(members)@, key@) >= 0,
        r is Err ==> final(members)@ == old(members)@,
        r is Ok ==> exists|p: int|
            0 <= p <= old(members)@.len() && final(members)@ == old(members)@.insert(p, (key, value)),
        r is Ok && keys_ascending(old(members)@) ==> keys_ascending(final(members)@),
{
    if find_member(members, key.as_str()).is_some() {
        return Err(WireFormatError);
    }
    proof {
        lemma_member_index(members@, key@);
    }
    let wanted = chars_of(key.as_str());
    let mut p: usize = 0;
    while p < members.len() && !chars_lt(wanted.as_slice(), chars_of(members[p].0.as_str()).as_slice())
        invariant
            p <= members@.len(),
            members@ == old(members)@,
            wanted@ == key@,
            forall|j: int| 0 <= j < members@.len() ==> #[trigger] members@[j].0@ != key@,
            forall|j: int| 0 <= j < p ==> !seq_lt(key@, #[trigger] members@[j].0@),
        decreases members.len() - p,
    {
        p = p + 1;
    }
    let ghost before = members@;
    members.insert(p, (key, value));
    proof {
        if keys_ascending(before) {
            let after = members@;
            assert forall|i: int, j: int| 0 <= i < j < after.len() implies seq_lt(
                #[trigger] after[i].0@,
                #[trigger] after[j].0@,
            ) by {
                if i < p && j == p {
                    lemma_seq_lt_order(before[i].0@, key@, key@);
                } else if i < p && j > p {
                    assert(seq_lt(before[i].0@, before[j - 1].0@));
                } else if i == p {
                    if j - 1 > p {
                        assert(seq_lt(before[p as int].0@, before[j - 1].0@));
                        lemma_seq_lt_order(key@, before[p as int].0@, before[j - 1].0@);
                    }
                } else if i > p {
                    assert(seq_lt(before[i - 1].0@, before[j - 1].0@));
                }
            }
        }
    }
    Ok(())
}

/// The number of an integer the reader meets: non-negative values are
/// positive-integer numbers, negative ones negative-integer numbers.
pub fn integer(value: i64) -> (r: JsonNumber)
    ensures
        value >= 0 ==> r == JsonNumber::PosInt(value as u64),
        value < 0 ==> r == JsonNumber::NegInt(value),
{
    if value >= 0 {
        JsonNumber::PosInt(value as u64)
    } else {
        JsonNumber::NegInt(value)
    }
}

/// Compares two strings by their characters.
pub fn string_eq(a: &str, b: &str) -> (r: bool)
    ensures
        r == (a@ == b@),
{
    let n = a.unicode_len();
    let m = b.unicode_len();
    if n != m {
        return false;
    }
    let mut i: usize = 0;
    while i < n
        invariant
            n == a@.len(),
            m == b@.len(),
            n == m,
            i <= n,
            forall|j: int| 0 <= j < i ==> a@[j] == b@[j],
        decreases n - i,
    {
        if a.get_char(i) != b.get_char(i) {
            return false;
        }
        i = i + 1;
    }
    assert(a@ =~= b@);
    true
}

impl JsonValue {
    /// The member named `key` of an object.
    pub open spec fn spec_get(&self, key: Seq<char>) -> Option<JsonValue> {
        match self {
            JsonValue::Object(members) => {
                let i = member_index(members@, key);
                if i < 0 {
                    None
                } else {
                    Some(members@[i].1)
                }
            },
            _ => None,
        }
    }

    /// The member named `key` when this is an object holding one.
    pub fn get(&self, key: &str) -> (r: Option<&JsonValue>)
        ensures
            r matches Some(v) ==> self.spec_get(key@) == Some(*v),
            r is None ==> self.spec_get(key@) is None,
    {
        match self {
            JsonValue::Object(members) => find_member(members, key),
            _ => None,
        }
    }

    /// The value as an integer in the `i64` range.
    pub open spec fn spec_as_i64(&self) -> Option<i64> {
        match self {
            JsonValue::Number(JsonNumber::PosInt(u)) => if u <= i64::MAX {
                Some(u as i64)
            } else {
                None
            },
            JsonValue::Number(JsonNumber::NegInt(i)) => Some(*i),
            _ => None,
        }
    }

    /// The value as an integer in the `i64` range.
    pub fn as_i64(&self) -> (r: Option<i64>)
        ensures
            r == self.spec_as_i64(),
    {
        match self {
            JsonValue::Number(JsonNumber::PosInt(u)) => if *u <= i64::MAX as u64 {
                Some(*u as i64)
            } else {
                None
            },
            JsonValue::Number(JsonNumber::NegInt(i)) => Some(*i),
            _ => None,
        }
    }

    /// The value as a Boolean.
    pub fn as_bool(&self) -> (r: Option<bool>)
        ensures
            *self matches JsonValue::Bool(b) ==> r == Some(b),
            !(*self is Bool) ==> r is None,
    {
        match self {
            JsonValue::Bool(b) => Some(*b),
            _ => None,
        }
    }

    /// The value as a string.
    pub fn as_str(&self) -> (r: Option<&str>)
        ensures
            *self matches JsonValue::String(s) ==> (r matches Some(x) && x@ == s@),
            !(*self is String) ==> r is None,
    {
        match self {
            JsonValue::String(s) => Some(s.as_str()),
            _ => None,
        }
    }
}


/// The lower-case hexadecimal digit of `d`, for `d < 16`.
pub open spec fn hex_digit(d: int) -> char {
    if d < 10 {
        (48 + d) as char
    } else {
        (87 + d) as char
    }
}

/// How one character is written inside a JSON string literal: `"` and `\`
/// take a backslash, the control characters below U+0020 take their short
/// escape where JSON has one and `\u00XX` otherwise, and every other
/// character stands for itself.
pub open spec fn escaped_char(c: char) -> Seq<char> {
    if c == '"' {
        seq!['\\', '"']
    } else if c == '\\' {
        seq!['\\', '\\']
    } else if c == '\u{8}' {
        seq!['\\', 'b']
    } else if c == '\t' {
        seq!['\\', 't']
    } else if c == '\n' {
        seq!['\\', 'n']
    } else if c == '\u{c}' {
        seq!['\\', 'f']
    } else if c == '\r' {
        seq!['\\', 'r']
    } else if (c as int) < 32 {
        seq!['\\', 'u', '0', '0', hex_digit(c as int / 16), hex_digit(c as int % 16)]
    } else {
        seq![c]
    }
}

/// The characters of `s`, each written as inside a JSON string literal.
pub open spec fn escaped(s: Seq<char>) -> Seq<char>
    decreases s.len(),
{
    if s.len() == 0 {
        Seq::empty()
    } else {
        escaped(s.drop_last()) + escaped_char(s.last())
    }
}

/// The JSON string literal of `s`, as `serde_json` writes it.
pub open spec fn json_quoted(s: Seq<char>) -> Seq<char> {
    seq!['"'] + escaped(s) + seq!['"']
}

/// Whether no character of `s` needs an escape in a JSON string literal.
pub open spec fn plain(s: Seq<char>) -> bool {
    forall|i: int| 0 <= i < s.len() ==> 32 <= (#[trigger] s[i]) as int && s[i] != '"' && s[i] != '\\'
}

/// A string without characters that need escaping is quoted as it is.
pub proof fn lemma_plain_quoted(s: Seq<char>)
    requires
        plain(s),
    ensures
        escaped(s) == s,
        json_quoted(s) == seq!['"'] + s + seq!['"'],
    decreases s.len(),
{
    if s.len() > 0 {
        lemma_plain_quoted(s.drop_last());
        assert(s.drop_last() + seq![s.last()] =~= s);
    }
}

/// `serde_json::to_string` on a string slice, which cannot fail for a
/// string: the literal is a `"`, then each character as the escape table
/// of `serde_json`'s serializer writes it, then a `"`.
#[verifier::external_body]
pub(crate) fn quote(s: &str) -> (r: String)
    ensures
        r@ == json_quoted(s@),
{
    match serde_json::to_string(s) {
        Ok(t) => t,
        Err(_) => String::new(),
    }
}

/// The compact text of a number.
pub open spec fn number_text(n: JsonNumber) -> Seq<char> {
    match n {
        JsonNumber::PosInt(u) => decimal(u as nat),
        JsonNumber::NegInt(i) => signed_decimal(i),
        JsonNumber::Other(t) => t@,
    }
}

/// The compact JSON text of a value, as `serde_json` writes it: no spaces,
/// members and items in order, separated by commas.
pub open spec fn json_text(v: JsonValue) -> Seq<char>
    decreases v, 1nat,
{
    match v {
        JsonValue::Null => "null"@,
        JsonValue::Bool(b) => if b {
            "true"@
        } else {
            "false"@
        },
        JsonValue::Number(n) => number_text(n),
        JsonValue::String(s) => json_quoted(s@),
        JsonValue::Array(items) => "["@ + items_text(items@) + "]"@,
        JsonValue::Object(members) => "{"@ + members_text(members@) + "}"@,
    }
}

/// The items of an array, separated by commas.
pub open spec fn items_text(items: Seq<JsonValue>) -> Seq<char>
    decreases items, 0nat,
{
    if items.len() == 0 {
        Seq::empty()
    } else if items.len() == 1 {
        json_text(items[0])
    } else {
        json_text(items[0]) + ","@ + items_text(items.subrange(1, items.len() as int))
    }
}

/// The members of an object, each `"key":value`, separated by commas.
pub open spec fn members_text(members: Seq<(String, JsonValue)>) -> Seq<char>
    decreases members, 0nat,
{
    if members.len() == 0 {
        Seq::empty()
    } else {
        let first = json_quoted(members[0].0@) + ":"@ + json_text(members[0].1);
        if members.len() == 1 {
            first
        } else {
            first + ","@ + members_text(members.subrange(1, members.len() as int))
        }
    }
}


/// Renders a value as compact JSON text.
pub fn render(v: &JsonValue) -> (r: String)
    ensures
        r@ == json_text(*v),
    decreases v, 1nat, 0nat,
{
    match v {
        JsonValue::Null => String::from_str("null"),
        JsonValue::Bool(b) => if *b {
            String::from_str("true")
        } else {
            String::from_str("false")
        },
        JsonValue::Number(n) => match n {
            JsonNumber::PosInt(u) => decimal_string(*u),
            JsonNumber::NegInt(i) => signed_decimal_string(*i),
            JsonNumber::Other(t) => t.clone(),
        },
        JsonValue::String(s) => quote(s.as_str()),
        JsonValue::Array(items) => {
            let mut out = String::from_str("[");
            let inner = render_items(items, 0);
            assert(items@.subrange(0, items@.len() as int) =~= items@);
            out.append(inner.as_str());
            out.append("]");
            out
        },
        JsonValue::Object(members) => {
            let mut out = String::from_str("{");
            let inner = render_members(members, 0);
            assert(members@.subrange(0, members@.len() as int) =~= members@);
            out.append(inner.as_str());
            out.append("}");
            out
        },
    }
}

fn render_items(items: &Vec<JsonValue>, start: usize) -> (r: String)
    requires
        start <= items@.len(),
    ensures
        r@ == items_text(items@.subrange(start as int, items@.len() as int)),
    decreases items, 0nat, items@.len() - start,
{
    let ghost rest = items@.subrange(start as int, items@.len() as int);
    if start == items.len() {
        return String::new();
    }
    proof {
        assert(rest[0] == items@[start as int]);
        assert(decreases_to!(items => items@));
        assert(decreases_to!(items@ => items@[start as int]));
    }
    let mut out = render(&items[start]);
    if start + 1 < items.len() {
        out.append(",");
        let tail = render_items(items, start + 1);
        assert(rest.subrange(1, rest.len() as int) =~= items@.subrange(start + 1, items@.len() as int));
        out.append(tail.as_str());
    }
    out
}

fn render_members(members: &Vec<(String, JsonValue)>, start: usize) -> (r: String)
    requires
        start <= members@.len(),
    ensures
        r@ == members_text(members@.subrange(start as int, members@.len() as int)),
    decreases members, 0nat, members@.len() - start,
{
    let ghost rest = members@.subrange(start as int, members@.len() as int);
    if start == members.len() {
        return String::new();
    }
    proof {
        assert(rest[0] == members@[start as int]);
        assert(decreases_to!(members => members@));
        assert(decreases_to!(members@ => members@[start as int]));
        assert(decreases_to!(members@[start as int] => members@[start as int].1));
    }
    let mut out = quote(members[start].0.as_str());
    out.append(":");
    let value = render(&members[start].1);
    out.append(value.as_str());
    if start + 1 < members.len() {
        out.append(",");
        let tail = render_members(members, start + 1);
        assert(rest.subrange(1, rest.len() as int) =~= members@.subrange(start + 1, members@.len() as int));
        out.append(tail.as_str());
    }
    out
}

} // verus!
