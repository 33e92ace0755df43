//! The framework-neutral HTTP boundary: query strings, path IDs, content types
//! and request bodies are checked here before any service call, and every
//! rejection is a [`BoundaryError`] with a status, a machine-readable code and
//! a message.

use vstd::prelude::*;
use vstd::utf8::{decode_utf8, encode_utf8, valid_utf8};

use crate::rest::domain::{
    normalize_patch, normalize_title, patch_outcome, patch_title, title_outcome, TaskFilter,
    TaskPatch,
};
use crate::rest::error::TaskError;
use crate::rest::json::{find_member, member_index, JsonValue};
use crate::text::{
    signed_decimal, signed_decimal_string,
    chars_eq_ignore_case, eq_ignore_case, strip_char, strip_chars, trim, trim_chars,
    all_digits, chars_of, digits_value, parse_digits, seq_lt, split_char,
    split_chars, split_once, split_once_chars, string_from_chars, utf8_string, is_utf8,
};

verus! {

/// Upper bound on a decoded request or response body.
pub const MAX_BODY_BYTES: usize = 1048576;

/// The exact `Content-Type` emitted on every JSON response.
pub const JSON_CONTENT_TYPE: &'static str = "application/json; charset=utf-8";

/// A rejected request: HTTP status, error code, message and optional details.
#[derive(Debug, PartialEq, Eq)]
pub struct BoundaryError {
    pub status: u16,
    pub code: String,
    pub message: String,
    pub details: Option<JsonValue>,
}

/// `details` is the object `{"field": field}`.
pub open spec fn field_details(details: Option<JsonValue>, field: Seq<char>) -> bool {
    match details {
        Some(JsonValue::Object(ms)) => ms@.len() == 1 && ms@[0].0@ == "field"@ && match ms@[0].1 {
            JsonValue::String(f) => f@ == field,
            _ => false,
        },
        _ => false,
    }
}

/// `e` is a `422 validation_error` on `field` with `message`.
pub open spec fn is_validation_error(e: BoundaryError, field: Seq<char>, message: Seq<char>) -> bool {
    &&& e.status == 422
    &&& e.code@ == "validation_error"@
    &&& e.message@ == message
    &&& field_details(e.details, field)
}

/// `e` is a `400 invalid_json` error with `message` and no details.
pub open spec fn is_invalid_json(e: BoundaryError, message: Seq<char>) -> bool {
    &&& e.status == 400
    &&& e.code@ == "invalid_json"@
    &&& e.message@ == message
    &&& e.details is None
}

/// `r` is the rejection `(field, message)` as a validation error.
pub open spec fn rejects<T>(r: Result<T, BoundaryError>, rejection: (Seq<char>, Seq<char>)) -> bool {
    r matches Err(e) && is_validation_error(e, rejection.0, rejection.1)
}

/// A `422 validation_error` on `field`.
pub fn validation(field: &str, message: String) -> (r: BoundaryError)
    ensures
        is_validation_error(r, field@, message@),
{
    let mut members: Vec<(String, JsonValue)> = Vec::new();
    members.push((String::from_str("field"), JsonValue::String(String::from_str(field))));
    BoundaryError {
        status: 422,
        code: String::from_str("validation_error"),
        message,
        details: Some(JsonValue::Object(members)),
    }
}

/// A `400 invalid_json` error.
pub fn invalid_json(message: &str) -> (r: BoundaryError)
    ensures
        is_invalid_json(r, message@),
{
    BoundaryError {
        status: 400,
        code: String::from_str("invalid_json"),
        message: String::from_str(message),
        details: None,
    }
}

/// The value of a hexadecimal digit byte.
pub open spec fn hex_value(b: u8) -> Option<u8> {
    if 48 <= b <= 57 {
        Some((b - 48) as u8)
    } else if 97 <= b <= 102 {
        Some((b - 87) as u8)
    } else if 65 <= b <= 70 {
        Some((b - 55) as u8)
    } else {
        None
    }
}

/// The value of a hexadecimal digit byte.
pub fn hex(value: u8) -> (r: Option<u8>)
    ensures
        r == hex_value(value),
{
    if 48 <= value && value <= 57 {
        Some(value - 48)
    } else if 97 <= value && value <= 102 {
        Some(value - 87)
    } else if 65 <= value && value <= 70 {
        Some(value - 55)
    } else {
        None
    }
}

/// `p` followed by the decoded rest, when the rest decoded.
pub open spec fn prepend(p: Seq<u8>, rest: Option<Seq<u8>>) -> Option<Seq<u8>> {
    match rest {
        Some(r) => Some(p + r),
        None => None,
    }
}

/// URL-decodes bytes: `%XY` becomes the byte `0xXY` when two hex digits
/// follow with at least one byte after the escape's start, `+` becomes a
/// space, and anything else is kept.
pub open spec fn pct_decode(b: Seq<u8>) -> Option<Seq<u8>>
    decreases b.len(),
{
    if b.len() == 0 {
        Some(Seq::empty())
    } else if b[0] == 37 {
        if 2 < b.len() && hex_value(b[1]) is Some && hex_value(b[2]) is Some {
            prepend(
                seq![(hex_value(b[1])->Some_0 * 16 + hex_value(b[2])->Some_0) as u8],
                pct_decode(b.subrange(3, b.len() as int)),
            )
        } else {
            None
        }
    } else if b[0] == 43 {
        prepend(seq![32u8], pct_decode(b.drop_first()))
    } else {
        prepend(seq![b[0]], pct_decode(b.drop_first()))
    }
}

/// The text a URL-encoded string decodes to, when it decodes to UTF-8.
pub open spec fn decode_text(s: Seq<char>) -> Option<Seq<char>> {
    match pct_decode(encode_utf8(s)) {
        Some(b) => if valid_utf8(b) {
            Some(decode_utf8(b))
        } else {
            None
        },
        None => None,
    }
}

/// Decodes one URL-encoded query component.
pub fn percent_decode(raw: &str) -> (r: Option<String>)
    ensures
        r is Some <==> decode_text(raw@) is Some,
        r matches Some(s) ==> Some(s@) == decode_text(raw@),
{
    let bytes = raw.as_bytes();
    let n = bytes.len();
    let mut decoded: Vec<u8> = Vec::new();
    let mut index: usize = 0;
    assert(bytes@.subrange(0, n as int) =~= bytes@);
    assert(decoded@ + bytes@ =~= bytes@);
    while index < n
        invariant
            n == bytes@.len(),
            bytes@ == encode_utf8(raw@),
            index <= n,
            pct_decode(bytes@) == prepend(decoded@, pct_decode(bytes@.subrange(index as int, n as int))),
        decreases n - index,
    {
        let ghost rest = bytes@.subrange(index as int, n as int);
        let ghost prev = decoded@;
        let b = bytes[index];
        assert(rest[0] == b);
        if b == 37 {
            if n - index > 2 {
                let high = hex(bytes[index + 1]);
                let low = hex(bytes[index + 2]);
                assert(rest[1] == bytes@[index + 1] && rest[2] == bytes@[index + 2]);
                match (high, low) {
                    (Some(h), Some(l)) => {
                        decoded.push(h * 16 + l);
                        assert(rest.subrange(3, rest.len() as int) =~= bytes@.subrange(index + 3, n as int));
                        assert(decoded@ =~= prev + seq![(h * 16 + l) as u8]);
                        assert(forall|x: Seq<u8>| #[trigger] (prev + (seq![(h * 16 + l) as u8] + x)) =~= decoded@ + x);
                        index = index + 3;
                    },
                    _ => {
                        return None;
                    },
                }
            } else {
                return None;
            }
        } else if b == 43 {
            decoded.push(32);
            assert(rest.drop_first() =~= bytes@.subrange(index + 1, n as int));
            assert(forall|x: Seq<u8>| #[trigger] (prev + (seq![32u8] + x)) =~= decoded@ + x);
            index = index + 1;
        } else {
            decoded.push(b);
            assert(rest.drop_first() =~= bytes@.subrange(index + 1, n as int));
            assert(forall|x: Seq<u8>| #[trigger] (prev + (seq![b] + x)) =~= decoded@ + x);
            index = index + 1;
        }
    }
    assert(bytes@.subrange(n as int, n as int) =~= Seq::<u8>::empty());
    assert(decoded@ + Seq::<u8>::empty() =~= decoded@);
    utf8_string(decoded)
}

/// A query parameter split into its raw key and value; a parameter without
/// `=` has an empty value.
pub open spec fn param_parts(p: Seq<char>) -> (Seq<char>, Seq<char>) {
    match split_once(p, '=') {
        Some(kv) => kv,
        None => (p, Seq::empty()),
    }
}

/// `prefix` before the decoded rest, or the rest's rejection.
pub open spec fn after_pairs(
    prefix: Seq<(Seq<char>, Seq<char>)>,
    rest: Result<Seq<(Seq<char>, Seq<char>)>, (Seq<char>, Seq<char>)>,
) -> Result<Seq<(Seq<char>, Seq<char>)>, (Seq<char>, Seq<char>)> {
    match rest {
        Ok(r) => Ok(prefix + r),
        Err(e) => Err(e),
    }
}

/// Decodes the parameters in order; the first parameter that does not decode
/// is rejected (its key first, then its value).
pub open spec fn decode_params(ps: Seq<Seq<char>>) -> Result<
    Seq<(Seq<char>, Seq<char>)>,
    (Seq<char>, Seq<char>),
>
    decreases ps.len(),
{
    if ps.len() == 0 {
        Ok(Seq::empty())
    } else {
        let (k, v) = param_parts(ps[0]);
        match decode_text(k) {
            None => Err(("query"@, "query string must be valid URL encoding"@)),
            Some(dk) => match decode_text(v) {
                None => Err((dk, "invalid query parameter: "@ + dk)),
                Some(dv) => after_pairs(seq![(dk, dv)], decode_params(ps.drop_first())),
            },
        }
    }
}

/// The decoded parameters of an optional query string, in order.
pub open spec fn query_params(query: Option<Seq<char>>) -> Result<
    Seq<(Seq<char>, Seq<char>)>,
    (Seq<char>, Seq<char>),
> {
    match query {
        None => Ok(Seq::empty()),
        Some(q) => if q.len() == 0 {
            Ok(Seq::empty())
        } else {
            decode_params(split_char(q, '&'))
        },
    }
}

/// The characters of each decoded key and value.
pub open spec fn pairs_view(v: Seq<(String, String)>) -> Seq<(Seq<char>, Seq<char>)> {
    v.map_values(|p: (String, String)| (p.0@, p.1@))
}

/// The optional query as characters.
pub open spec fn opt_view(q: Option<&str>) -> Option<Seq<char>> {
    match q {
        Some(s) => Some(s@),
        None => None,
    }
}

fn prefixed(prefix: &str, text: &str) -> (r: String)
    ensures
        r@ == prefix@ + text@,
{
    let mut r = String::from_str(prefix);
    r.append(text);
    r
}

/// Splits and URL-decodes a query string into its parameters, in order.
pub fn parse_query(query: Option<&str>) -> (r: Result<Vec<(String, String)>, BoundaryError>)
    ensures
        r is Ok <==> query_params(opt_view(query)) is Ok,
        r matches Ok(v) ==> (query_params(opt_view(query)) matches Ok(ps) && ps == pairs_view(v@)),
        query_params(opt_view(query)) matches Err(rejection) ==> rejects(r, rejection),
{
    let mut result: Vec<(String, String)> = Vec::new();
    let q = match query {
        None => {
            assert(pairs_view(result@) =~= Seq::empty());
            return Ok(result);
        },
        Some(q) => q,
    };
    if q.is_empty() {
        assert(pairs_view(result@) =~= Seq::empty());
        return Ok(result);
    }
    let chars = chars_of(q);
    let pieces = split_chars(chars.as_slice(), '&');
    let ghost ps = pieces@.map_values(|p: Vec<char>| p@);
    let mut i: usize = 0;
    assert(ps.subrange(0, ps.len() as int) =~= ps);
    assert(pairs_view(result@) + Seq::empty() =~= Seq::empty());
    while i < pieces.len()
        invariant
            i <= pieces.len(),
            ps == pieces@.map_values(|p: Vec<char>| p@),
            ps == split_char(q@, '&'),
            opt_view(query) == Some(q@),
            q@.len() > 0,
            decode_params(ps) == after_pairs(
                pairs_view(result@),
                decode_params(ps.subrange(i as int, ps.len() as int)),
            ),
        decreases pieces.len() - i,
    {
        let ghost rest = ps.subrange(i as int, ps.len() as int);
        assert(rest[0] == pieces@[i as int]@);
        let (key, value) = match split_once_chars(pieces[i].as_slice(), '=') {
            Some((k, v)) => (string_from_chars(k.as_slice()), string_from_chars(v.as_slice())),
            None => (string_from_chars(pieces[i].as_slice()), String::new()),
        };
        assert(param_parts(rest[0]) == (key@, value@));
        let decoded_key = match percent_decode(key.as_str()) {
            Some(k) => k,
            None => {
                assert(rest.len() > 0);
                assert(decode_params(rest) == Err::<Seq<(Seq<char>, Seq<char>)>, (Seq<char>, Seq<char>)>(
                    ("query"@, "query string must be valid URL encoding"@),
                ));
                return Err(validation("query", String::from_str("query string must be valid URL encoding")));
            },
        };
        let decoded_value = match percent_decode(value.as_str()) {
            Some(v) => v,
            None => {
                let message = prefixed("invalid query parameter: ", decoded_key.as_str());
                assert(decode_params(rest) == Err::<Seq<(Seq<char>, Seq<char>)>, (Seq<char>, Seq<char>)>(
                    (decoded_key@, "invalid query parameter: "@ + decoded_key@),
                ));
                return Err(validation(decoded_key.as_str(), message));
            },
        };
        let ghost prev = pairs_view(result@);
        let ghost pair = (decoded_key@, decoded_value@);
        result.push((decoded_key, decoded_value));
        proof {
            assert(pairs_view(result@) =~= prev.push(pair));
            assert(rest.drop_first() =~= ps.subrange(i + 1, ps.len() as int));
            let tail = decode_params(rest.drop_first());
            match tail {
                Ok(t) => {
                    assert(prev + (seq![pair] + t) =~= prev.push(pair) + t);
                },
                Err(_) => {},
            }
        }
        i = i + 1;
    }
    proof {
        assert(ps.subrange(i as int, ps.len() as int) =~= Seq::<Seq<char>>::empty());
        assert(pairs_view(result@) + Seq::empty() =~= pairs_view(result@));
    }
    Ok(result)
}

/// The smallest of `keys` in `String` order (the last of equal minima).
pub open spec fn min_key(keys: Seq<Seq<char>>) -> Seq<char>
    decreases keys.len(),
{
    if keys.len() <= 1 {
        keys[0]
    } else {
        let m = min_key(keys.drop_last());
        if seq_lt(keys.last(), m) {
            keys.last()
        } else {
            m
        }
    }
}

/// The keys of the parameters not named `name`, in order.
pub open spec fn keys_except(ps: Seq<(Seq<char>, Seq<char>)>, name: Seq<char>) -> Seq<Seq<char>>
    decreases ps.len(),
{
    if ps.len() == 0 {
        Seq::empty()
    } else {
        let r = keys_except(ps.drop_last(), name);
        if ps.last().0 != name {
            r.push(ps.last().0)
        } else {
            r
        }
    }
}

/// The values of the parameters named `name`, in order.
pub open spec fn values_named(ps: Seq<(Seq<char>, Seq<char>)>, name: Seq<char>) -> Seq<Seq<char>>
    decreases ps.len(),
{
    if ps.len() == 0 {
        Seq::empty()
    } else {
        let r = values_named(ps.drop_last(), name);
        if ps.last().0 == name {
            r.push(ps.last().1)
        } else {
            r
        }
    }
}

/// The smallest key among the parameters not named `name`, if any, and the
/// values of those named `name`.
fn split_parameters(params: &Vec<(String, String)>, name: &str) -> (r: (Option<String>, Vec<String>))
    ensures
        keys_except(pairs_view(params@), name@).len() == 0 <==> r.0 is None,
        r.0 matches Some(k) ==> k@ == min_key(keys_except(pairs_view(params@), name@)),
        r.1@.map_values(|v: String| v@) == values_named(pairs_view(params@), name@),
{
    let ghost pv = pairs_view(params@);
    let mut smallest: Option<String> = None;
    let mut values: Vec<String> = Vec::new();
    let mut i: usize = 0;
    assert(values@.map_values(|v: String| v@) =~= Seq::empty());
    while i < params.len()
        invariant
            i <= params.len(),
            pv == pairs_view(params@),
            keys_except(pv.subrange(0, i as int), name@).len() == 0 <==> smallest is None,
            smallest matches Some(k) ==> k@ == min_key(keys_except(pv.subrange(0, i as int), name@)),
            values@.map_values(|v: String| v@) == values_named(pv.subrange(0, i as int), name@),
        decreases params.len() - i,
    {
        let ghost before = pv.subrange(0, i as int);
        assert(pv.subrange(0, i + 1).drop_last() =~= before);
        assert(pv.subrange(0, i + 1).last() == (params@[i as int].0@, params@[i as int].1@));
        let key = &params[i].0;
        let ghost prev_values = values@;
        if crate::rest::json::string_eq(key.as_str(), name) {
            values.push(params[i].1.clone());
            assert(values@.map_values(|v: String| v@) =~= prev_values.map_values(|v: String| v@).push(params@[i as int].1@));
        } else {
            let ghost ks = keys_except(pv.subrange(0, i + 1), name@);
            assert(ks == keys_except(before, name@).push(key@));
            assert(ks.drop_last() == keys_except(before, name@));
            match &smallest {
                None => {
                    smallest = Some(key.clone());
                },
                Some(current) => {
                    let a = chars_of(key.as_str());
                    let b = chars_of(current.as_str());
                    if crate::text::chars_lt(a.as_slice(), b.as_slice()) {
                        smallest = Some(key.clone());
                    }
                },
            }
        }
        i = i + 1;
    }
    assert(pv.subrange(0, i as int) =~= pv);
    (smallest, values)
}

/// The keys of the parameters, in order.
pub open spec fn all_keys(ps: Seq<(Seq<char>, Seq<char>)>) -> Seq<Seq<char>>
    decreases ps.len(),
{
    if ps.len() == 0 {
        Seq::empty()
    } else {
        all_keys(ps.drop_last()).push(ps.last().0)
    }
}

/// The smallest key of the parameters, if any.
fn smallest_key(params: &Vec<(String, String)>) -> (r: Option<String>)
    ensures
        params@.len() == 0 <==> r is None,
        r matches Some(k) ==> k@ == min_key(all_keys(pairs_view(params@))),
{
    let ghost pv = pairs_view(params@);
    let mut smallest: Option<String> = None;
    let mut i: usize = 0;
    while i < params.len()
        invariant
            i <= params.len(),
            pv == pairs_view(params@),
            i == 0 <==> smallest is None,
            smallest matches Some(k) ==> k@ == min_key(all_keys(pv.subrange(0, i as int))),
        decreases params.len() - i,
    {
        let ghost before = pv.subrange(0, i as int);
        assert(pv.subrange(0, i + 1).drop_last() =~= before);
        assert(pv.subrange(0, i + 1).last() == (params@[i as int].0@, params@[i as int].1@));
        let key = &params[i].0;
        let ghost ks = all_keys(pv.subrange(0, i + 1));
        assert(ks.drop_last() == all_keys(before));
        match &smallest {
            None => {
                smallest = Some(key.clone());
            },
            Some(current) => {
                let a = chars_of(key.as_str());
                let b = chars_of(current.as_str());
                if crate::text::chars_lt(a.as_slice(), b.as_slice()) {
                    smallest = Some(key.clone());
                }
            },
        }
        i = i + 1;
    }
    assert(pv.subrange(0, i as int) =~= pv);
    smallest
}

/// The outcome of a query that must be empty: the smallest key present is
/// rejected as unknown.
pub open spec fn no_query_outcome(query: Option<Seq<char>>) -> Result<(), (Seq<char>, Seq<char>)> {
    match query_params(query) {
        Err(rejection) => Err(rejection),
        Ok(ps) => if ps.len() == 0 {
            Ok(())
        } else {
            let k = min_key(all_keys(ps));
            Err((k, "unknown query parameter: "@ + k))
        },
    }
}

/// Rejects any query parameter on a route that takes none.
pub fn validate_no_query(query: Option<&str>) -> (r: Result<(), BoundaryError>)
    ensures
        r is Ok <==> no_query_outcome(opt_view(query)) is Ok,
        no_query_outcome(opt_view(query)) matches Err(rejection) ==> rejects(r, rejection),
{
    let parameters = parse_query(query)?;
    match smallest_key(&parameters) {
        Some(key) => {
            let message = prefixed("unknown query parameter: ", key.as_str());
            Err(validation(key.as_str(), message))
        },
        None => Ok(()),
    }
}

/// The completion filter a list query asks for.
pub open spec fn filter_outcome(ps: Seq<(Seq<char>, Seq<char>)>) -> Result<
    Option<bool>,
    (Seq<char>, Seq<char>),
> {
    let others = keys_except(ps, "completed"@);
    let values = values_named(ps, "completed"@);
    if others.len() > 0 {
        let k = min_key(others);
        Err((k, "unknown query parameter: "@ + k))
    } else if values.len() == 0 {
        Ok(None)
    } else if values.len() != 1 {
        Err(("completed"@, "completed filter must be true or false"@))
    } else if values[0] == "true"@ {
        Ok(Some(true))
    } else if values[0] == "false"@ {
        Ok(Some(false))
    } else {
        Err(("completed"@, "completed filter must be true or false"@))
    }
}

/// The outcome of a whole list query.
pub open spec fn list_query_outcome(query: Option<Seq<char>>) -> Result<
    Option<bool>,
    (Seq<char>, Seq<char>),
> {
    match query_params(query) {
        Err(rejection) => Err(rejection),
        Ok(ps) => filter_outcome(ps),
    }
}

/// Parses the list query: only `completed=true` or `completed=false`, at
/// most once.
pub fn parse_list_filter(query: Option<&str>) -> (r: Result<TaskFilter, BoundaryError>)
    ensures
        r is Ok <==> list_query_outcome(opt_view(query)) is Ok,
        r matches Ok(f) ==> list_query_outcome(opt_view(query)) == Ok::<
            Option<bool>,
            (Seq<char>, Seq<char>),
        >(f.completed),
        list_query_outcome(opt_view(query)) matches Err(rejection) ==> rejects(r, rejection),
{
    let parameters = parse_query(query)?;
    let (other, values) = split_parameters(&parameters, "completed");
    if let Some(key) = other {
        let message = prefixed("unknown query parameter: ", key.as_str());
        return Err(validation(key.as_str(), message));
    }
    if values.len() == 0 {
        return Ok(TaskFilter { completed: None });
    }
    if values.len() != 1 {
        return Err(validation("completed", String::from_str("completed filter must be true or false")));
    }
    assert(values@.map_values(|v: String| v@)[0] == values@[0]@);
    let completed = if crate::rest::json::string_eq(values[0].as_str(), "true") {
        true
    } else if crate::rest::json::string_eq(values[0].as_str(), "false") {
        false
    } else {
        return Err(validation("completed", String::from_str("completed filter must be true or false")));
    };
    Ok(TaskFilter { completed: Some(completed) })
}

/// Whether a path segment is a positive decimal ID in the `i64` range.
pub open spec fn id_outcome(raw: Seq<char>) -> Option<i64> {
    if all_digits(raw) && 0 < digits_value(raw) <= i64::MAX {
        Some(digits_value(raw) as i64)
    } else {
        None
    }
}

/// Parses a task ID from a path segment: ASCII digits only, positive and in
/// range.
pub fn parse_id(raw: &str) -> (r: Result<i64, BoundaryError>)
    ensures
        r is Ok <==> id_outcome(raw@) is Some,
        r matches Ok(id) ==> id_outcome(raw@) == Some(id),
        id_outcome(raw@) is None ==> rejects(r, ("id"@, "task ID must be a positive integer"@)),
{
    let chars = chars_of(raw);
    match parse_digits(chars.as_slice()) {
        Some(id) => if id > 0 {
            Ok(id)
        } else {
            Err(validation("id", String::from_str("task ID must be a positive integer")))
        },
        None => Err(validation("id", String::from_str("task ID must be a positive integer"))),
    }
}

/// Marker error for strict JSON/content-type parsing failures.
#[derive(Clone, Copy, Debug, PartialEq, Eq)]
pub struct WireFormatError;

/// How a JSON `Content-Type` fails: `0` when it is acceptable, `1` when the
/// media type or a parameter is malformed, `2` when the charset is not UTF-8.
pub open spec fn params_status(ps: Seq<Seq<char>>) -> u8
    decreases ps.len(),
{
    if ps.len() == 0 {
        0
    } else {
        match split_once(trim(ps[0]), '=') {
            None => 1,
            Some((name, value)) => if eq_ignore_case(trim(name), "charset"@) && !eq_ignore_case(
                strip_char(trim(value), '"'),
                "utf-8"@,
            ) {
                2
            } else {
                params_status(ps.drop_first())
            },
        }
    }
}

/// The status of a `Content-Type` value: the media type must be
/// `application/json` (any ASCII case, surrounding whitespace allowed) and any
/// `charset` parameter must be UTF-8; parameters must have the form
/// `name=value`.
pub open spec fn content_type_status(raw: Seq<char>) -> u8 {
    let parts = split_char(raw, ';');
    if !eq_ignore_case(trim(parts[0]), "application/json"@) {
        1
    } else {
        params_status(parts.drop_first())
    }
}

/// Checks a `Content-Type` value, returning its [`content_type_status`].
pub fn check_content_type(raw: &str) -> (r: u8)
    ensures
        r == content_type_status(raw@),
{
    let chars = chars_of(raw);
    let parts = split_chars(chars.as_slice(), ';');
    let ghost ps = parts@.map_values(|p: Vec<char>| p@);
    assert(ps.len() > 0);
    assert(ps[0] == parts@[0]@);
    let media = trim_chars(parts[0].as_slice());
    if !chars_eq_ignore_case(media.as_slice(), "application/json") {
        return 1;
    }
    let mut i: usize = 1;
    assert(ps.subrange(1, ps.len() as int) =~= ps.drop_first());
    while i < parts.len()
        invariant
            1 <= i <= parts.len(),
            ps == parts@.map_values(|p: Vec<char>| p@),
            content_type_status(raw@) == params_status(ps.subrange(i as int, ps.len() as int)),
        decreases parts.len() - i,
    {
        let ghost rest = ps.subrange(i as int, ps.len() as int);
        assert(rest[0] == parts@[i as int]@);
        assert(rest.drop_first() =~= ps.subrange(i + 1, ps.len() as int));
        let parameter = trim_chars(parts[i].as_slice());
        match split_once_chars(parameter.as_slice(), '=') {
            None => {
                return 1;
            },
            Some((name, value)) => {
                let name = trim_chars(name.as_slice());
                let value = trim_chars(value.as_slice());
                let value = strip_chars(value.as_slice(), '"');
                if chars_eq_ignore_case(name.as_slice(), "charset") && !chars_eq_ignore_case(
                    value.as_slice(),
                    "utf-8",
                ) {
                    return 2;
                }
            },
        }
        i = i + 1;
    }
    0
}

/// The `Content-Type` of a response or request as an optional string.
pub open spec fn json_type_ok(content_type: Option<Seq<char>>) -> bool {
    content_type matches Some(raw) && content_type_status(raw) == 0
}

/// Validates a JSON `Content-Type`, allowing only an optional UTF-8 charset.
pub fn validate_json_content_type(content_type: Option<&str>) -> (r: Result<(), WireFormatError>)
    ensures
        r is Ok <==> json_type_ok(opt_view(content_type)),
{
    let raw = match content_type {
        Some(raw) => raw,
        None => return Err(WireFormatError),
    };
    if check_content_type(raw) == 0 {
        Ok(())
    } else {
        Err(WireFormatError)
    }
}

/// The rejection message for a request `Content-Type`, if it is rejected.
pub open spec fn request_type_message(content_type: Option<Seq<char>>) -> Option<Seq<char>> {
    match content_type {
        None => Some("request Content-Type must be application/json"@),
        Some(raw) => {
            let status = content_type_status(raw);
            if status == 0 {
                None
            } else if status == 1 {
                Some("request Content-Type must be application/json"@)
            } else {
                Some("request JSON charset must be UTF-8"@)
            }
        },
    }
}

/// Validates a request `Content-Type`, naming the charset when only that is
/// wrong.
pub fn validate_request_content_type(content_type: Option<&str>) -> (r: Result<(), BoundaryError>)
    ensures
        r is Ok <==> request_type_message(opt_view(content_type)) is None,
        request_type_message(opt_view(content_type)) matches Some(m) ==> (r matches Err(e)
            && is_invalid_json(e, m)),
{
    let raw = match content_type {
        Some(raw) => raw,
        None => return Err(invalid_json("request Content-Type must be application/json")),
    };
    let status = check_content_type(raw);
    if status == 0 {
        Ok(())
    } else if status == 1 {
        Err(invalid_json("request Content-Type must be application/json"))
    } else {
        Err(invalid_json("request JSON charset must be UTF-8"))
    }
}

/// The outcome of reading a request body as a JSON object, given the strict
/// parse of the body: `Ok` with the members, or the rejection.
pub open spec fn object_outcome(
    content_type: Option<Seq<char>>,
    body: Seq<u8>,
    document: Result<JsonValue, WireFormatError>,
) -> Result<Seq<(String, JsonValue)>, BoundaryRejection> {
    match request_type_message(content_type) {
        Some(m) => Err(BoundaryRejection::InvalidJson(m)),
        None => if body.len() > MAX_BODY_BYTES || !valid_utf8(body) {
            Err(BoundaryRejection::InvalidJson("request body must be valid JSON"@))
        } else {
            match document {
                Err(_) => Err(BoundaryRejection::InvalidJson("request body must be valid JSON"@)),
                Ok(JsonValue::Object(ms)) => Ok(ms@),
                Ok(_) => Err(
                    BoundaryRejection::Validation("body"@, "request body must be a JSON object"@),
                ),
            }
        },
    }
}

/// How a request is rejected: a `400 invalid_json` with a message, or a
/// `422 validation_error` on a field with a message.
pub ghost enum BoundaryRejection {
    InvalidJson(Seq<char>),
    Validation(Seq<char>, Seq<char>),
}

/// `e` is the rejection `j`.
pub open spec fn is_rejection(e: BoundaryError, j: BoundaryRejection) -> bool {
    match j {
        BoundaryRejection::InvalidJson(m) => is_invalid_json(e, m),
        BoundaryRejection::Validation(f, m) => is_validation_error(e, f, m),
    }
}

/// The members of a request body that must be a JSON object. `document` is
/// the strict JSON parse of `body`.
pub fn decode_object(
    content_type: Option<&str>,
    body: &[u8],
    document: Result<JsonValue, WireFormatError>,
) -> (r: Result<Vec<(String, JsonValue)>, BoundaryError>)
    ensures
        r is Ok <==> object_outcome(opt_view(content_type), body@, document) is Ok,
        r matches Ok(ms) ==> object_outcome(opt_view(content_type), body@, document) == Ok::<
            Seq<(String, JsonValue)>,
            BoundaryRejection,
        >(ms@),
        object_outcome(opt_view(content_type), body@, document) matches Err(j) ==> (r matches Err(
            e,
        ) && is_rejection(e, j)),
{
    validate_request_content_type(content_type)?;
    if body.len() > MAX_BODY_BYTES || !is_utf8(body) {
        return Err(invalid_json("request body must be valid JSON"));
    }
    match document {
        Err(_) => Err(invalid_json("request body must be valid JSON")),
        Ok(JsonValue::Object(members)) => Ok(members),
        Ok(_) => Err(validation("body", String::from_str("request body must be a JSON object"))),
    }
}

/// The keys of `members` that are not in `allowed`, in order.
pub open spec fn keys_not_in(members: Seq<(String, JsonValue)>, allowed: Seq<Seq<char>>) -> Seq<Seq<char>>
    decreases members.len(),
{
    if members.len() == 0 {
        Seq::empty()
    } else {
        let r = keys_not_in(members.drop_last(), allowed);
        if allowed.contains(members.last().0@) {
            r
        } else {
            r.push(members.last().0@)
        }
    }
}

/// The smallest key of `members` outside `allowed`, if any.
fn first_unknown(members: &Vec<(String, JsonValue)>, allowed: &Vec<&str>) -> (r: Option<String>)
    ensures
        keys_not_in(members@, allowed@.map_values(|a: &str| a@)).len() == 0 <==> r is None,
        r matches Some(k) ==> k@ == min_key(keys_not_in(members@, allowed@.map_values(|a: &str| a@))),
{
    let ghost al = allowed@.map_values(|a: &str| a@);
    let mut smallest: Option<String> = None;
    let mut i: usize = 0;
    while i < members.len()
        invariant
            i <= members.len(),
            al == allowed@.map_values(|a: &str| a@),
            keys_not_in(members@.subrange(0, i as int), al).len() == 0 <==> smallest is None,
            smallest matches Some(k) ==> k@ == min_key(keys_not_in(members@.subrange(0, i as int), al)),
        decreases members.len() - i,
    {
        let ghost before = members@.subrange(0, i as int);
        assert(members@.subrange(0, i + 1).drop_last() =~= before);
        assert(members@.subrange(0, i + 1).last() == members@[i as int]);
        let key = &members[i].0;
        let mut known = false;
        let mut j: usize = 0;
        while j < allowed.len()
            invariant
                j <= allowed.len(),
                al == allowed@.map_values(|a: &str| a@),
                known <==> exists|k: int| 0 <= k < j && al[k] == key@,
            decreases allowed.len() - j,
        {
            assert(al[j as int] == allowed@[j as int]@);
            if crate::rest::json::string_eq(key.as_str(), allowed[j]) {
                known = true;
            }
            j = j + 1;
        }
        assert(known <==> al.contains(key@));
        if !known {
            let ghost ks = keys_not_in(members@.subrange(0, i + 1), al);
            assert(ks.drop_last() == keys_not_in(before, al));
            match &smallest {
                None => {
                    smallest = Some(key.clone());
                },
                Some(current) => {
                    let a = chars_of(key.as_str());
                    let b = chars_of(current.as_str());
                    if crate::text::chars_lt(a.as_slice(), b.as_slice()) {
                        smallest = Some(key.clone());
                    }
                },
            }
        }
        i = i + 1;
    }
    assert(members@.subrange(0, i as int) =~= members@);
    smallest
}

/// The member named `key`.
pub open spec fn member(members: Seq<(String, JsonValue)>, key: Seq<char>) -> Option<JsonValue> {
    let i = member_index(members, key);
    if i < 0 {
        None
    } else {
        Some(members[i].1)
    }
}

/// The outcome of decoding a create request's members: the normalized title,
/// or the rejection.
pub open spec fn create_outcome(members: Seq<(String, JsonValue)>) -> Result<Seq<char>, (Seq<char>, Seq<char>)> {
    let unknown = keys_not_in(members, seq!["title"@]);
    if unknown.len() > 0 {
        let k = min_key(unknown);
        Err((k, "unknown property: "@ + k))
    } else {
        match member(members, "title"@) {
            None => Err(("title"@, "missing property: title"@)),
            Some(JsonValue::String(t)) => match title_outcome(t@) {
                Ok(n) => Ok(n),
                Err(m) => Err(("title"@, m)),
            },
            Some(_) => Err(("title"@, "title must be a string"@)),
        }
    }
}

/// The whole outcome of a create request.
pub open spec fn create_request_outcome(
    content_type: Option<Seq<char>>,
    body: Seq<u8>,
    document: Result<JsonValue, WireFormatError>,
) -> Result<Seq<char>, BoundaryRejection> {
    match object_outcome(content_type, body, document) {
        Err(j) => Err(j),
        Ok(ms) => match create_outcome(ms) {
            Ok(t) => Ok(t),
            Err((f, m)) => Err(BoundaryRejection::Validation(f, m)),
        },
    }
}

/// Decodes a create request body to its normalized title. `document` is the
/// strict JSON parse of `body`.
pub fn decode_create(
    content_type: Option<&str>,
    body: &[u8],
    document: Result<JsonValue, WireFormatError>,
) -> (r: Result<String, BoundaryError>)
    ensures
        r is Ok <==> create_request_outcome(opt_view(content_type), body@, document) is Ok,
        r matches Ok(t) ==> create_request_outcome(opt_view(content_type), body@, document) == Ok::<
            Seq<char>,
            BoundaryRejection,
        >(t@),
        create_request_outcome(opt_view(content_type), body@, document) matches Err(j) ==> (r matches Err(
            e,
        ) && is_rejection(e, j)),
{
    let object = decode_object(content_type, body, document)?;
    let mut allowed: Vec<&str> = Vec::new();
    allowed.push("title");
    assert(allowed@.map_values(|a: &str| a@) =~= seq!["title"@]);
    if let Some(field) = first_unknown(&object, &allowed) {
        let message = prefixed("unknown property: ", field.as_str());
        return Err(validation(field.as_str(), message));
    }
    let title = match find_member(&object, "title") {
        None => {
            return Err(validation("title", String::from_str("missing property: title")));
        },
        Some(value) => match value.as_str() {
            Some(t) => t,
            None => {
                return Err(validation("title", String::from_str("title must be a string")));
            },
        },
    };
    match normalize_title(title) {
        Ok(t) => Ok(t),
        Err(error) => Err(map_task_error(&error)),
    }
}

/// The outcome of decoding an update request's members.
pub open spec fn update_outcome(members: Seq<(String, JsonValue)>) -> Result<
    Option<Seq<char>>,
    (Seq<char>, Seq<char>),
> {
    let unknown = keys_not_in(members, seq!["completed"@, "title"@]);
    if unknown.len() > 0 {
        let k = min_key(unknown);
        Err((k, "unknown property: "@ + k))
    } else {
        let title = member(members, "title"@);
        let completed = member(members, "completed"@);
        if title is Some && !(title->Some_0 is String) {
            Err(("title"@, "title must be a string"@))
        } else if completed is Some && !(completed->Some_0 is Bool) {
            Err(("completed"@, "completed must be a Boolean"@))
        } else {
            patch_outcome(
                match title {
                    Some(JsonValue::String(t)) => Some(t@),
                    _ => None,
                },
                match completed {
                    Some(JsonValue::Bool(b)) => Some(b),
                    _ => None,
                },
            )
        }
    }
}

/// The completion flag an update request's members carry.
pub open spec fn update_completed(members: Seq<(String, JsonValue)>) -> Option<bool> {
    match member(members, "completed"@) {
        Some(JsonValue::Bool(b)) => Some(b),
        _ => None,
    }
}

/// An update's completion flag passes through unchanged: when the request
/// object's `completed` member is the JSON Boolean `b`, the decoded patch
/// carries `Some(b)`; without the member it carries `None`; and any other
/// `completed` value rejects the request.
pub proof fn law_update_completed_passes_through(ms: Seq<(String, JsonValue)>)
    ensures
        member(ms, "completed"@) matches Some(JsonValue::Bool(b)) ==> update_completed(ms) == Some(b),
        member(ms, "completed"@) is None ==> update_completed(ms) is None,
        member(ms, "completed"@) matches Some(v) && !(v is Bool) ==> update_outcome(ms) is Err,
{
}

/// Decodes an update request body to a normalized patch. `document` is the
/// strict JSON parse of `body`.
pub fn decode_update(
    content_type: Option<&str>,
    body: &[u8],
    document: Result<JsonValue, WireFormatError>,
) -> (r: Result<TaskPatch, BoundaryError>)
    ensures
        object_outcome(opt_view(content_type), body@, document) matches Err(j) ==> (r matches Err(
            e,
        ) && is_rejection(e, j)),
        object_outcome(opt_view(content_type), body@, document) matches Ok(ms) ==> {
            &&& r is Ok <==> update_outcome(ms) is Ok
            &&& r matches Ok(p) ==> update_outcome(ms) == Ok::<
                Option<Seq<char>>,
                (Seq<char>, Seq<char>),
            >(patch_title(p)) && p.completed == update_completed(ms)
            &&& update_outcome(ms) matches Err((f, m)) ==> (r matches Err(e)
                && is_validation_error(e, f, m))
        },
{
    let object = decode_object(content_type, body, document)?;
    let mut allowed: Vec<&str> = Vec::new();
    allowed.push("completed");
    allowed.push("title");
    assert(allowed@.map_values(|a: &str| a@) =~= seq!["completed"@, "title"@]);
    if let Some(field) = first_unknown(&object, &allowed) {
        let message = prefixed("unknown property: ", field.as_str());
        return Err(validation(field.as_str(), message));
    }
    let title = match find_member(&object, "title") {
        Some(JsonValue::String(value)) => Some(value.clone()),
        Some(_) => {
            return Err(validation("title", String::from_str("title must be a string")));
        },
        None => None,
    };
    let completed = match find_member(&object, "completed") {
        Some(JsonValue::Bool(value)) => Some(*value),
        Some(_) => {
            return Err(validation("completed", String::from_str("completed must be a Boolean")));
        },
        None => None,
    };
    match normalize_patch(TaskPatch { title, completed }) {
        Ok(patch) => Ok(patch),
        Err(error) => Err(map_task_error(&error)),
    }
}

/// `b` is how a server answers the task error `e`: validation errors keep
/// their field and message, a missing task is a `404`, and everything else
/// is a sanitized `500` whose cause stays on the server.
pub open spec fn answers(e: TaskError, b: BoundaryError) -> bool {
    match e {
        TaskError::Validation { field, message } => is_validation_error(b, field@, message@),
        TaskError::NotFound { id } => b.status == 404 && b.code@ == "not_found"@ && b.message@
            == "task "@ + signed_decimal(id) + " was not found"@ && b.details is None,
        _ => b.status == 500 && b.code@ == "internal_error"@ && b.message@
            == "the server could not complete the request"@ && b.details is None,
    }
}

/// How a task error reaches a client.
pub fn map_task_error(error: &TaskError) -> (r: BoundaryError)
    ensures
        answers(*error, r),
{
    match error {
        TaskError::Validation { field, message } => validation(field.as_str(), message.clone()),
        TaskError::NotFound { id } => {
            let mut message = String::from_str("task ");
            message.append(signed_decimal_string(*id).as_str());
            message.append(" was not found");
            BoundaryError {
                status: 404,
                code: String::from_str("not_found"),
                message,
                details: None,
            }
        },
        _ => BoundaryError {
            status: 500,
            code: String::from_str("internal_error"),
            message: String::from_str("the server could not complete the request"),
            details: None,
        },
    }
}

} // verus!
