//! What the HTTP client decides about the responses it receives: the status
//! is checked first, then the content type, then a strict-JSON body with an
//! exact set of fields. Anything the wire contract does not allow becomes an
//! "unexpected response" error. Sending and receiving stay with the caller,
//! which hands each captured response here together with the strict JSON
//! parse of its body.

use vstd::prelude::*;
use vstd::utf8::{encode_utf8, valid_utf8};

use crate::rest::boundary::{
    answers, BoundaryError,
    json_type_ok, member, opt_view, validate_json_content_type, WireFormatError, MAX_BODY_BYTES,
};
use crate::rest::domain::{
    valid_title, normalize_patch, normalize_title, parts_outcome, patch_outcome, patch_title, title_outcome,
    Task, TaskPatch, TaskView,
};
use crate::rest::error::{is_unexpected, TaskError};
use crate::rest::markdown::ids_increasing;
use crate::rest::json::{
    JsonNumber, find_member, json_quoted, json_text, lemma_plain_quoted, member_index, members_text, quote,
    string_eq, JsonValue,
};
use crate::rest::http::error_text;
use crate::text::{chars_of, debug_quoted, debug_str, decimal, decimal_string, is_utf8};

verus! {

/// A captured response: everything decoding needs, independent of the HTTP
/// library.
pub struct RawResponse {
    pub status: u16,
    pub content_type: Option<String>,
    pub body: Vec<u8>,
}

/// Whether an advertised body length is within the 1 MiB cap.
pub fn advertised_length_ok(length: Option<u64>) -> (r: bool)
    ensures
        r == (length matches Some(n) ==> n <= MAX_BODY_BYTES),
{
    match length {
        Some(n) => n <= MAX_BODY_BYTES as u64,
        None => true,
    }
}

/// Whether a chunk of `chunk` bytes still fits after `received` bytes.
pub fn chunk_fits(received: usize, chunk: usize) -> (r: bool)
    ensures
        r == (received + chunk <= MAX_BODY_BYTES),
{
    received <= MAX_BODY_BYTES && chunk <= MAX_BODY_BYTES - received
}

/// The outcome of reading a response body as JSON: the parsed value, or the
/// message of the unexpected-response error.
pub open spec fn json_outcome(
    content_type: Option<Seq<char>>,
    body: Seq<u8>,
    document: Result<JsonValue, WireFormatError>,
) -> Result<JsonValue, Seq<char>> {
    if !json_type_ok(content_type) {
        Err("response Content-Type was not application/json"@)
    } else if !valid_utf8(body) {
        Err("response body was not strict UTF-8 JSON"@)
    } else {
        match document {
            Ok(v) => Ok(v),
            Err(_) => Err("response body was not strict UTF-8 JSON"@),
        }
    }
}

/// The content type of a response, by its characters.
pub open spec fn content_type_view(response: RawResponse) -> Option<Seq<char>> {
    match response.content_type {
        Some(s) => Some(s@),
        None => None,
    }
}

/// Requires the JSON content type and a strict UTF-8 JSON body. `document`
/// is the strict JSON parse of the body.
pub fn decode_json(response: &RawResponse, document: Result<JsonValue, WireFormatError>) -> (r: Result<JsonValue, TaskError>)
    ensures
        json_outcome(content_type_view(*response), response.body@, document) matches Ok(v) ==> r == Ok::<JsonValue, TaskError>(v),
        json_outcome(content_type_view(*response), response.body@, document) matches Err(m) ==> (r matches Err(e) && is_unexpected(e, m)),
{
    let content_type = match &response.content_type {
        Some(s) => Some(s.as_str()),
        None => None,
    };
    assert(opt_view(content_type) == content_type_view(*response));
    if validate_json_content_type(content_type).is_err() {
        return Err(TaskError::unexpected_response("response Content-Type was not application/json"));
    }
    if !is_utf8(response.body.as_slice()) {
        return Err(TaskError::unexpected_response("response body was not strict UTF-8 JSON"));
    }
    match document {
        Ok(v) => Ok(v),
        Err(_) => Err(TaskError::unexpected_response("response body was not strict UTF-8 JSON")),
    }
}

/// The members of `v` when it is an object with exactly the keys `expected`.
pub open spec fn exact_members(v: JsonValue, expected: Seq<Seq<char>>) -> Option<Seq<(String, JsonValue)>> {
    match v {
        JsonValue::Object(ms) => if ms@.len() == expected.len() && forall|i: int|
            0 <= i < expected.len() ==> member_index(ms@, #[trigger] expected[i]) >= 0 {
            Some(ms@)
        } else {
            None
        },
        _ => None,
    }
}

/// Borrows the members of an object that must hold exactly the keys
/// `expected` and no others; otherwise the error names `label`.
pub fn exact_object<'a>(value: &'a JsonValue, expected: &Vec<&str>, label: &str) -> (r: Result<
    &'a Vec<(String, JsonValue)>,
    TaskError,
>)
    ensures
        exact_members(*value, expected@.map_values(|k: &str| k@)) matches Some(ms) ==> (r matches Ok(
            x,
        ) && x@ == ms),
        exact_members(*value, expected@.map_values(|k: &str| k@)) is None ==> (r matches Err(e)
            && is_unexpected(e, label@ + " fields were malformed"@)),
{
    let ghost keys = expected@.map_values(|k: &str| k@);
    let members = match value {
        JsonValue::Object(ms) => ms,
        _ => {
            return Err(malformed(label));
        },
    };
    if members.len() != expected.len() {
        return Err(malformed(label));
    }
    let mut i: usize = 0;
    while i < expected.len()
        invariant
            i <= expected@.len(),
            keys == expected@.map_values(|k: &str| k@),
            *value == JsonValue::Object(*members),
            forall|j: int| 0 <= j < i ==> member_index(members@, #[trigger] keys[j]) >= 0,
        decreases expected.len() - i,
    {
        assert(keys[i as int] == expected@[i as int]@);
        if find_member(members, expected[i]).is_none() {
            return Err(malformed(label));
        }
        i = i + 1;
    }
    Ok(members)
}

fn malformed(label: &str) -> (r: TaskError)
    ensures
        is_unexpected(r, label@ + " fields were malformed"@),
{
    let mut message = String::from_str(label);
    message.append(" fields were malformed");
    TaskError::unexpected_response(message.as_str())
}

/// The task a response value carries: exactly the `completed`, `id` and
/// `title` fields with the right types, forming a valid task.
pub open spec fn task_outcome(v: JsonValue) -> Result<TaskView, Seq<char>> {
    match exact_members(v, seq!["completed"@, "id"@, "title"@]) {
        None => Err("Task response fields were malformed"@),
        Some(ms) => match (member(ms, "id"@), member(ms, "title"@), member(ms, "completed"@)) {
            (Some(i), Some(JsonValue::String(t)), Some(JsonValue::Bool(c))) => match i.spec_as_i64() {
                Some(id) => if parts_outcome(id, t@) is Ok {
                    Ok(TaskView { id, title: t@, completed: c })
                } else {
                    Err("Task response values were malformed"@)
                },
                None => Err("Task response values were malformed"@),
            },
            _ => Err("Task response values were malformed"@),
        },
    }
}

/// Rebuilds a task from a response value through the domain constructor,
/// so a malformed task never surfaces.
pub fn decode_task(value: &JsonValue) -> (r: Result<Task, TaskError>)
    ensures
        task_outcome(*value) matches Ok(t) ==> (r matches Ok(x) && x@ == t),
        task_outcome(*value) matches Err(m) ==> (r matches Err(e) && is_unexpected(e, m)),
{
    let mut expected: Vec<&str> = Vec::new();
    expected.push("completed");
    expected.push("id");
    expected.push("title");
    proof {
        reveal_strlit("completed");
        reveal_strlit("id");
        reveal_strlit("title");
        assert(expected@.map_values(|k: &str| k@) =~= seq!["completed"@, "id"@, "title"@]);
    }
    proof {
        reveal_strlit("Task response");
        reveal_strlit(" fields were malformed");
        reveal_strlit("Task response fields were malformed");
        assert("Task response"@ + " fields were malformed"@ =~= "Task response fields were malformed"@);
    }
    let object = exact_object(value, &expected, "Task response")?;
    let id = match find_member(object, "id") {
        Some(v) => match v.as_i64() {
            Some(id) => id,
            None => {
                return Err(TaskError::unexpected_response("Task response values were malformed"));
            },
        },
        None => {
            return Err(TaskError::unexpected_response("Task response values were malformed"));
        },
    };
    let title = match find_member(object, "title") {
        Some(v) => match v.as_str() {
            Some(t) => t,
            None => {
                return Err(TaskError::unexpected_response("Task response values were malformed"));
            },
        },
        None => {
            return Err(TaskError::unexpected_response("Task response values were malformed"));
        },
    };
    let completed = match find_member(object, "completed") {
        Some(v) => match v.as_bool() {
            Some(c) => c,
            None => {
                return Err(TaskError::unexpected_response("Task response values were malformed"));
            },
        },
        None => {
            return Err(TaskError::unexpected_response("Task response values were malformed"));
        },
    };
    match Task::from_parts(id, title, completed) {
        Ok(t) => Ok(t),
        Err(_) => Err(TaskError::unexpected_response("Task response values were malformed")),
    }
}


/// The error code the wire contract pairs with each documented error status.
pub open spec fn expected_code(status: u16) -> Option<Seq<char>> {
    if status == 400 {
        Some("invalid_json"@)
    } else if status == 404 {
        Some("not_found"@)
    } else if status == 405 {
        Some("method_not_allowed"@)
    } else if status == 422 {
        Some("validation_error"@)
    } else if status == 500 {
        Some("internal_error"@)
    } else {
        None
    }
}

fn expected_code_of(status: u16) -> (r: Option<&'static str>)
    ensures
        r matches Some(c) ==> expected_code(status) == Some(c@),
        r is None ==> expected_code(status) is None,
{
    if status == 400 {
        Some("invalid_json")
    } else if status == 404 {
        Some("not_found")
    } else if status == 405 {
        Some("method_not_allowed")
    } else if status == 422 {
        Some("validation_error")
    } else if status == 500 {
        Some("internal_error")
    } else {
        None
    }
}

/// The message for a status the contract does not document.
pub open spec fn status_message(status: u16) -> Seq<char> {
    "unexpected HTTP status: "@ + decimal(status as nat)
}

fn status_message_of(status: u16) -> (r: String)
    ensures
        r@ == status_message(status),
{
    let mut m = String::from_str("unexpected HTTP status: ");
    m.append(decimal_string(status as u64).as_str());
    m
}

/// Whether every key of `fields` is `code`, `message` or `details`.
pub open spec fn error_keys_known(fields: Seq<(String, JsonValue)>) -> bool {
    forall|i: int| 0 <= i < fields.len() ==> {
        let k = (#[trigger] fields[i]).0@;
        k == "code"@ || k == "message"@ || k == "details"@
    }
}

/// A documented API error: code, non-empty message and optional details.
pub ghost struct ApiErrorView {
    pub code: Seq<char>,
    pub message: Seq<char>,
    pub details: Option<JsonValue>,
}

/// The outcome of decoding the fields of an error object received with
/// `status`: the API error, or the message of the unexpected-response error.
/// The code must match the status.
pub open spec fn error_fields_outcome(status: u16, fields: Seq<(String, JsonValue)>) -> Result<ApiErrorView, Seq<char>> {
    if !error_keys_known(fields) || member_index(fields, "code"@) < 0 || member_index(fields, "message"@) < 0 {
        Err("API error fields were malformed"@)
    } else {
        match (member(fields, "code"@), member(fields, "message"@), member(fields, "details"@)) {
            (Some(JsonValue::String(c)), Some(JsonValue::String(m)), d) => if m@.len() == 0 || (d is Some
                && !(d->Some_0 is Object)) {
                Err("API error values were malformed"@)
            } else {
                match expected_code(status) {
                    None => Err(status_message(status)),
                    Some(x) => if c@ != x {
                        Err("API error code "@ + debug_str(c@) + " did not match HTTP status "@ + decimal(
                            status as nat,
                        ))
                    } else {
                        Ok(ApiErrorView { code: c@, message: m@, details: d })
                    },
                }
            },
            _ => Err("API error values were malformed"@),
        }
    }
}

/// The outcome of decoding an error envelope received with `status`.
pub open spec fn api_error_outcome(status: u16, v: JsonValue) -> Result<ApiErrorView, Seq<char>> {
    match exact_members(v, seq!["error"@]) {
        None => Err("API error envelope fields were malformed"@),
        Some(ms) => match member(ms, "error"@) {
            Some(JsonValue::Object(fields)) => error_fields_outcome(status, fields@),
            _ => Err("API error value was not an object"@),
        },
    }
}

/// `e` is the API error `a` received with `status`.
pub open spec fn is_api_error(e: TaskError, status: u16, a: ApiErrorView) -> bool {
    e matches TaskError::Api { status: s, code, message, details } && s == status && code@ == a.code
        && message@ == a.message && details == a.details
}

/// The error a documented error response decodes to: the API error, or an
/// unexpected-response error explaining why it could not be trusted.
pub open spec fn error_response_outcome(
    status: u16,
    content_type: Option<Seq<char>>,
    body: Seq<u8>,
    document: Result<JsonValue, WireFormatError>,
) -> Result<ApiErrorView, Seq<char>> {
    match json_outcome(content_type, body, document) {
        Err(m) => Err(m),
        Ok(v) => api_error_outcome(status, v),
    }
}

fn take_member(members: &mut Vec<(String, JsonValue)>, key: &str) -> (r: Option<JsonValue>)
    ensures
        member_index(old(members)@, key@) < 0 ==> r is None && final(members)@ == old(members)@,
        member_index(old(members)@, key@) >= 0 ==> r == Some(old(members)@[member_index(old(members)@, key@)].1)
            && final(members)@ == old(members)@.remove(member_index(old(members)@, key@)),
{
    proof {
        crate::rest::json::lemma_member_index(members@, key@);
    }
    let mut i: usize = 0;
    while i < members.len()
        invariant
            i <= members@.len(),
            members@ == old(members)@,
            -1 <= member_index(members@, key@) < members@.len(),
            member_index(members@, key@) >= 0 ==> members@[member_index(members@, key@)].0@ == key@,
            member_index(members@, key@) >= 0 ==> forall|j: int|
                0 <= j < member_index(members@, key@) ==> #[trigger] members@[j].0@ != key@,
            member_index(members@, key@) < 0 ==> forall|j: int|
                0 <= j < members@.len() ==> #[trigger] members@[j].0@ != key@,
            forall|j: int| 0 <= j < i ==> #[trigger] members@[j].0@ != key@,
        decreases members.len() - i,
    {
        if string_eq(members[i].0.as_str(), key) {
            assert(member_index(members@, key@) == i);
            let (_, v) = members.remove(i);
            return Some(v);
        }
        i = i + 1;
    }
    None
}

/// Decodes the error envelope of a documented error status and cross-checks
/// that its code matches the status. `document` is the strict JSON parse of
/// the body.
pub fn decode_api_error(response: &RawResponse, document: Result<JsonValue, WireFormatError>) -> (r: Result<TaskError, TaskError>)
    ensures
        error_response_outcome(response.status, content_type_view(*response), response.body@, document) matches Ok(a)
            ==> (r matches Ok(e) && is_api_error(e, response.status, a)),
        error_response_outcome(response.status, content_type_view(*response), response.body@, document) matches Err(m)
            ==> (r matches Err(e) && is_unexpected(e, m)),
{
    let value = decode_json(response, document)?;
    let mut expected: Vec<&str> = Vec::new();
    expected.push("error");
    proof {
        reveal_strlit("error");
        assert(expected@.map_values(|k: &str| k@) =~= seq!["error"@]);
        reveal_strlit("API error envelope");
        reveal_strlit(" fields were malformed");
        reveal_strlit("API error envelope fields were malformed");
        assert("API error envelope"@ + " fields were malformed"@ =~= "API error envelope fields were malformed"@);
    }
    exact_object(&value, &expected, "API error envelope")?;
    let mut envelope = match value {
        JsonValue::Object(ms) => ms,
        _ => {
            return Err(TaskError::unexpected_response("API error envelope fields were malformed"));
        },
    };
    let mut fields = match take_member(&mut envelope, "error") {
        Some(JsonValue::Object(fs)) => fs,
        _ => {
            return Err(TaskError::unexpected_response("API error value was not an object"));
        },
    };
    let ghost all = fields@;
    assert(error_response_outcome(response.status, content_type_view(*response), response.body@, document)
        == error_fields_outcome(response.status, all));
    let mut i: usize = 0;
    while i < fields.len()
        invariant
            i <= fields@.len(),
            fields@ == all,
            error_response_outcome(response.status, content_type_view(*response), response.body@, document)
                == error_fields_outcome(response.status, all),
            forall|j: int| 0 <= j < i ==> {
                let k = (#[trigger] all[j]).0@;
                k == "code"@ || k == "message"@ || k == "details"@
            },
        decreases fields.len() - i,
    {
        let key = fields[i].0.as_str();
        if !(string_eq(key, "code") || string_eq(key, "message") || string_eq(key, "details")) {
            assert(!error_keys_known(all)) by {
                assert(all[i as int].0@ == key@);
            }
            return Err(TaskError::unexpected_response("API error fields were malformed"));
        }
        i = i + 1;
    }
    if find_member(&fields, "code").is_none() || find_member(&fields, "message").is_none() {
        return Err(TaskError::unexpected_response("API error fields were malformed"));
    }
    let code = match find_member(&fields, "code") {
        Some(JsonValue::String(c)) => c.clone(),
        _ => {
            return Err(TaskError::unexpected_response("API error values were malformed"));
        },
    };
    let message = match find_member(&fields, "message") {
        Some(JsonValue::String(m)) => m.clone(),
        _ => {
            return Err(TaskError::unexpected_response("API error values were malformed"));
        },
    };
    if message.as_str().unicode_len() == 0 {
        return Err(TaskError::unexpected_response("API error values were malformed"));
    }
    let details = match take_member(&mut fields, "details") {
        Some(JsonValue::Object(d)) => Some(JsonValue::Object(d)),
        Some(_) => {
            return Err(TaskError::unexpected_response("API error values were malformed"));
        },
        None => None,
    };
    let expected_code = match expected_code_of(response.status) {
        Some(c) => c,
        None => {
            return Err(TaskError::unexpected_response(status_message_of(response.status).as_str()));
        },
    };
    if !string_eq(code.as_str(), expected_code) {
        let mut m = String::from_str("API error code ");
        m.append(debug_quoted(code.as_str()).as_str());
        m.append(" did not match HTTP status ");
        m.append(decimal_string(response.status as u64).as_str());
        return Err(TaskError::unexpected_response(m.as_str()));
    }
    Ok(TaskError::api(response.status, code.as_str(), message.as_str(), details))
}

/// The error for a response whose status is not the success status: a
/// documented error status decodes its envelope, anything else is
/// unexpected.
pub open spec fn status_error_outcome(
    status: u16,
    allowed: Seq<u16>,
    content_type: Option<Seq<char>>,
    body: Seq<u8>,
    document: Result<JsonValue, WireFormatError>,
) -> Result<ApiErrorView, Seq<char>> {
    if allowed.contains(status) {
        error_response_outcome(status, content_type, body, document)
    } else {
        Err(status_message(status))
    }
}

/// `e` is the error `o` describes for a response with `status`.
pub open spec fn is_status_error(e: TaskError, status: u16, o: Result<ApiErrorView, Seq<char>>) -> bool {
    match o {
        Ok(a) => is_api_error(e, status, a),
        Err(m) => is_unexpected(e, m),
    }
}

/// The error a response that missed its success status is reported as.
pub fn status_error(response: &RawResponse, allowed: &[u16], document: Result<JsonValue, WireFormatError>) -> (r: TaskError)
    ensures
        is_status_error(r, response.status, status_error_outcome(response.status, allowed@, content_type_view(*response), response.body@, document)),
{
    let mut i: usize = 0;
    let mut listed = false;
    while i < allowed.len()
        invariant
            i <= allowed@.len(),
            listed <==> exists|j: int| 0 <= j < i && allowed@[j] == response.status,
        decreases allowed.len() - i,
    {
        if allowed[i] == response.status {
            listed = true;
        }
        i = i + 1;
    }
    assert(listed <==> allowed@.contains(response.status));
    if listed {
        match decode_api_error(response, document) {
            Ok(e) => e,
            Err(e) => e,
        }
    } else {
        TaskError::unexpected_response(status_message_of(response.status).as_str())
    }
}

/// The outcome of a response that should carry one task with status
/// `success`.
pub open spec fn task_response_outcome(
    response: RawResponse,
    success: u16,
    allowed: Seq<u16>,
    document: Result<JsonValue, WireFormatError>,
) -> Result<TaskView, Result<ApiErrorView, Seq<char>>> {
    if response.status != success {
        Err(status_error_outcome(response.status, allowed, content_type_view(response), response.body@, document))
    } else {
        match json_outcome(content_type_view(response), response.body@, document) {
            Err(m) => Err(Err(m)),
            Ok(v) => match task_outcome(v) {
                Ok(t) => Ok(t),
                Err(m) => Err(Err(m)),
            },
        }
    }
}

/// Decodes a response that should carry one task: the status is checked
/// first, then the content type and body. `document` is the strict JSON
/// parse of the body.
pub fn decode_task_response(
    response: &RawResponse,
    success: u16,
    allowed: &[u16],
    document: Result<JsonValue, WireFormatError>,
) -> (r: Result<Task, TaskError>)
    ensures
        task_response_outcome(*response, success, allowed@, document) matches Ok(t) ==> (r matches Ok(x) && x@ == t),
        task_response_outcome(*response, success, allowed@, document) matches Err(o) ==> (r matches Err(e)
            && is_status_error(e, response.status, o)),
{
    if response.status != success {
        return Err(status_error(response, allowed, document));
    }
    let value = decode_json(response, document)?;
    decode_task(&value)
}

/// The tasks of a list response, which must come in strictly ascending ID
/// order after `previous`.
pub open spec fn items_outcome(items: Seq<JsonValue>, previous: i64) -> Result<Seq<TaskView>, Seq<char>>
    decreases items.len(),
{
    if items.len() == 0 {
        Ok(Seq::empty())
    } else {
        match task_outcome(items[0]) {
            Err(m) => Err(m),
            Ok(t) => if t.id <= previous {
                Err("Task list was not ordered by ascending ID"@)
            } else {
                match items_outcome(items.drop_first(), t.id) {
                    Err(m) => Err(m),
                    Ok(rest) => Ok(seq![t] + rest),
                }
            },
        }
    }
}

/// The outcome of a list response.
pub open spec fn list_response_outcome(
    response: RawResponse,
    document: Result<JsonValue, WireFormatError>,
) -> Result<Seq<TaskView>, Result<ApiErrorView, Seq<char>>> {
    if response.status != 200 {
        Err(status_error_outcome(response.status, seq![405u16, 422u16, 500u16], content_type_view(response), response.body@, document))
    } else {
        match json_outcome(content_type_view(response), response.body@, document) {
            Err(m) => Err(Err(m)),
            Ok(JsonValue::Array(items)) => match items_outcome(items@, 0) {
                Ok(ts) => Ok(ts),
                Err(m) => Err(Err(m)),
            },
            Ok(_) => Err(Err("Task list response was not an array"@)),
        }
    }
}

/// Decodes a list response and verifies the strictly ascending ID order the
/// contract promises. `document` is the strict JSON parse of the body.
pub fn decode_task_list(response: &RawResponse, document: Result<JsonValue, WireFormatError>) -> (r: Result<Vec<Task>, TaskError>)
    ensures
        list_response_outcome(*response, document) matches Ok(ts) ==> (r matches Ok(x) && x@.map_values(|t: Task| t@) == ts),
        list_response_outcome(*response, document) matches Err(o) ==> (r matches Err(e)
            && is_status_error(e, response.status, o)),
{
    if response.status != 200 {
        let allowed: [u16; 3] = [405, 422, 500];
        assert(allowed@ =~= seq![405u16, 422u16, 500u16]);
        return Err(status_error(response, &allowed, document));
    }
    let value = decode_json(response, document)?;
    let items = match &value {
        JsonValue::Array(items) => items,
        _ => {
            return Err(TaskError::unexpected_response("Task list response was not an array"));
        },
    };
    let ghost all = items@;
    assert(list_response_outcome(*response, document) == match items_outcome(all, 0) {
        Ok(ts) => Ok(ts),
        Err(m) => Err(Err::<ApiErrorView, Seq<char>>(m)),
    });
    let mut tasks: Vec<Task> = Vec::new();
    let mut previous: i64 = 0;
    let mut i: usize = 0;
    assert(tasks@.map_values(|t: Task| t@) =~= Seq::<TaskView>::empty());
    assert(all.subrange(0, all.len() as int) =~= all);
    while i < items.len()
        invariant
            i <= all.len(),
            all == items@,
            list_response_outcome(*response, document) == match items_outcome(all, 0) {
                Ok(ts) => Ok(ts),
                Err(m) => Err(Err::<ApiErrorView, Seq<char>>(m)),
            },
            previous == (if i == 0 { 0 } else { tasks@.map_values(|t: Task| t@).last().id }),
            tasks@.len() == i,
            items_outcome(all, 0) == match items_outcome(all.subrange(i as int, all.len() as int), previous) {
                Err(m) => Err(m),
                Ok(rest) => Ok(tasks@.map_values(|t: Task| t@) + rest),
            },
        decreases items.len() - i,
    {
        let ghost rest = all.subrange(i as int, all.len() as int);
        assert(rest[0] == all[i as int]);
        assert(rest.drop_first() =~= all.subrange(i + 1, all.len() as int));
        let task = match decode_task(&items[i]) {
            Ok(t) => t,
            Err(e) => {
                assert(items_outcome(rest, previous) == match task_outcome(rest[0]) {
                    Err(m) => Err::<Seq<TaskView>, Seq<char>>(m),
                    Ok(t) => if t.id <= previous {
                        Err("Task list was not ordered by ascending ID"@)
                    } else {
                        match items_outcome(rest.drop_first(), t.id) {
                            Err(m) => Err(m),
                            Ok(r) => Ok(seq![t] + r),
                        }
                    },
                });
                return Err(e);
            },
        };
        if task.id() <= previous {
            return Err(TaskError::unexpected_response("Task list was not ordered by ascending ID"));
        }
        let ghost tv = task@;
        let ghost before = tasks@.map_values(|t: Task| t@);
        previous = task.id();
        tasks.push(task);
        proof {
            assert(tasks@.map_values(|t: Task| t@) =~= before.push(tv));
            match items_outcome(rest.drop_first(), tv.id) {
                Ok(r) => {
                    assert(before + (seq![tv] + r) =~= before.push(tv) + r);
                },
                Err(_) => {},
            }
        }
        i = i + 1;
    }
    proof {
        assert(all.subrange(i as int, all.len() as int) =~= Seq::<JsonValue>::empty());
        assert(tasks@.map_values(|t: Task| t@) + Seq::<TaskView>::empty() =~= tasks@.map_values(|t: Task| t@));
    }
    Ok(tasks)
}

/// The outcome of a delete response: an empty `204` without a content type.
pub open spec fn deleted_outcome(
    response: RawResponse,
    document: Result<JsonValue, WireFormatError>,
) -> Result<(), Result<ApiErrorView, Seq<char>>> {
    if response.status != 204 {
        Err(status_error_outcome(response.status, seq![404u16, 405u16, 422u16, 500u16], content_type_view(response), response.body@, document))
    } else if response.body@.len() != 0 {
        Err(Err("204 response body was not empty"@))
    } else if response.content_type is Some {
        Err(Err("204 response Content-Type was present"@))
    } else {
        Ok(())
    }
}

/// Decodes a delete response: a valid `204` must carry no body and no
/// content type. `document` is the strict JSON parse of the body.
pub fn decode_deleted(response: &RawResponse, document: Result<JsonValue, WireFormatError>) -> (r: Result<(), TaskError>)
    ensures
        deleted_outcome(*response, document) is Ok ==> r is Ok,
        deleted_outcome(*response, document) matches Err(o) ==> (r matches Err(e)
            && is_status_error(e, response.status, o)),
{
    if response.status != 204 {
        let allowed: [u16; 4] = [404, 405, 422, 500];
        assert(allowed@ =~= seq![404u16, 405u16, 422u16, 500u16]);
        return Err(status_error(response, &allowed, document));
    }
    if response.body.len() != 0 {
        return Err(TaskError::unexpected_response("204 response body was not empty"));
    }
    if response.content_type.is_some() {
        return Err(TaskError::unexpected_response("204 response Content-Type was present"));
    }
    Ok(())
}


/// The JSON text of a create request for the normalized title `title`.
pub open spec fn create_body_text(title: Seq<char>) -> Seq<char> {
    "{\"title\":"@ + json_quoted(title) + "}"@
}

/// The body of a create request; the title is validated and normalized
/// locally before anything is sent.
pub fn create_body(title: &str) -> (r: Result<Vec<u8>, TaskError>)
    ensures
        title_outcome(title@) matches Ok(t) ==> (r matches Ok(b) && b@ == encode_utf8(create_body_text(t))),
        title_outcome(title@) matches Err(m) ==> (r matches Err(e) && crate::rest::error::is_validation(e, "title"@, m)),
{
    let title = normalize_title(title)?;
    let mut text = String::from_str("{\"title\":");
    text.append(quote(title.as_str()).as_str());
    text.append("}");
    Ok(text.as_str().as_bytes_vec())
}

/// The JSON text of an update request: the present fields only, title first.
pub open spec fn update_body_text(title: Option<Seq<char>>, completed: Option<bool>) -> Seq<char> {
    let t = match title {
        Some(t) => "\"title\":"@ + json_quoted(t),
        None => Seq::empty(),
    };
    let c = match completed {
        Some(b) => "\"completed\":"@ + (if b { "true"@ } else { "false"@ }),
        None => Seq::empty(),
    };
    "{"@ + t + (if title is Some && completed is Some { ","@ } else { Seq::empty() }) + c + "}"@
}

/// `ms` are the members of the object a patch is sent as: the title first
/// when there is one, then the completion flag as a JSON Boolean when there
/// is one, and nothing else.
pub open spec fn update_members(
    ms: Seq<(String, JsonValue)>,
    title: Option<Seq<char>>,
    completed: Option<bool>,
) -> bool {
    &&& ms.len() == (if title is Some { 1int } else { 0int }) + (if completed is Some { 1int } else { 0int })
    &&& title matches Some(t) ==> ms[0].0@ == "title"@ && (ms[0].1 matches JsonValue::String(s) && s@ == t)
    &&& completed matches Some(b) ==> ms[ms.len() - 1].0@ == "completed"@ && ms[ms.len() - 1].1
        == JsonValue::Bool(b)
}

proof fn lemma_update_key_texts()
    ensures
        json_quoted("title"@) == "\"title\""@,
        json_quoted("completed"@) == "\"completed\""@,
{
    reveal_strlit("title");
    reveal_strlit("completed");
    reveal_strlit("\"title\"");
    reveal_strlit("\"completed\"");
    lemma_plain_quoted("title"@);
    lemma_plain_quoted("completed"@);
    assert(json_quoted("title"@) =~= "\"title\""@);
    assert(json_quoted("completed"@) =~= "\"completed\""@);
}

/// An update request body is the compact JSON text of the patch as an
/// object: the title member first when there is one, then the completion
/// member holding exactly the patch's flag as a JSON Boolean, whatever the
/// title.
pub proof fn law_update_body_is_json(title: Option<Seq<char>>, completed: Option<bool>, v: JsonValue)
    requires
        v matches JsonValue::Object(ms) && update_members(ms@, title, completed),
    ensures
        update_body_text(title, completed) == json_text(v),
{
    lemma_update_key_texts();
    reveal_strlit("\"title\":");
    reveal_strlit("\"completed\":");
    reveal_strlit("\"title\"");
    reveal_strlit("\"completed\"");
    reveal_strlit(":");
    reveal_strlit(",");
    reveal_strlit("{");
    reveal_strlit("}");
    reveal_strlit("true");
    reveal_strlit("false");
    assert("\"title\":"@ =~= "\"title\""@ + ":"@);
    assert("\"completed\":"@ =~= "\"completed\""@ + ":"@);
    let ms = match v {
        JsonValue::Object(m) => m@,
        _ => Seq::empty(),
    };
    if title is Some && completed is Some {
        let rest = ms.subrange(1, ms.len() as int);
        assert(rest.len() == 1 && rest[0] == ms[1]);
        assert(members_text(rest) == json_quoted("completed"@) + ":"@ + json_text(ms[1].1));
        assert(members_text(ms) == json_quoted("title"@) + ":"@ + json_text(ms[0].1) + ","@ + members_text(rest));
    } else if title is Some {
        assert(members_text(ms) == json_quoted("title"@) + ":"@ + json_text(ms[0].1));
    } else if completed is Some {
        assert(members_text(ms) == json_quoted("completed"@) + ":"@ + json_text(ms[0].1));
    } else {
        assert(members_text(ms) == Seq::<char>::empty());
    }
    assert(update_body_text(title, completed) =~= json_text(v));
}

/// The body of an update request; the patch is validated and normalized
/// locally before anything is sent, and absent fields are omitted.
pub fn update_body(patch: TaskPatch) -> (r: Result<Vec<u8>, TaskError>)
    ensures
        patch_outcome(patch_title(patch), patch.completed) matches Ok(t) ==> (r matches Ok(b)
            && b@ == encode_utf8(update_body_text(t, patch.completed))),
        patch_outcome(patch_title(patch), patch.completed) matches Err((f, m)) ==> (r matches Err(e)
            && crate::rest::error::is_validation(e, f, m)),
{
    let ghost completed = patch.completed;
    let patch = normalize_patch(patch)?;
    let mut text = String::from_str("{");
    let ghost start = text@;
    match &patch.title {
        Some(t) => {
            text.append("\"title\":");
            text.append(quote(t.as_str()).as_str());
        },
        None => {},
    }
    let ghost after_title = text@;
    if patch.title.is_some() && patch.completed.is_some() {
        text.append(",");
    }
    let ghost after_comma = text@;
    match patch.completed {
        Some(b) => {
            text.append("\"completed\":");
            if b {
                text.append("true");
            } else {
                text.append("false");
            }
        },
        None => {},
    }
    let ghost after_completed = text@;
    text.append("}");
    proof {
        let tt = match patch_title(patch) {
            Some(t) => "\"title\":"@ + json_quoted(t),
            None => Seq::<char>::empty(),
        };
        assert(after_title =~= start + tt);
        let cc = match patch.completed {
            Some(b) => "\"completed\":"@ + (if b { "true"@ } else { "false"@ }),
            None => Seq::<char>::empty(),
        };
        assert(after_completed =~= after_comma + cc);
        assert(text@ =~= update_body_text(patch_title(patch), patch.completed));
    }
    Ok(text.as_str().as_bytes_vec())
}

/// The query pairs of a list request: `completed=true|false` when filtering.
pub fn list_query(filter: crate::rest::domain::TaskFilter) -> (r: Vec<(String, String)>)
    ensures
        filter.completed is None ==> r@.len() == 0,
        filter.completed matches Some(c) ==> r@.len() == 1 && r@[0].0@ == "completed"@ && r@[0].1@ == (
        if c {
            "true"@
        } else {
            "false"@
        }),
{
    let mut pairs: Vec<(String, String)> = Vec::new();
    match filter.completed {
        Some(c) => {
            let value = if c {
                String::from_str("true")
            } else {
                String::from_str("false")
            };
            pairs.push((String::from_str("completed"), value));
        },
        None => {},
    }
    pairs
}

/// The path segment of a task ID, after checking that the ID is positive.
pub fn id_segment(id: i64) -> (r: Result<String, TaskError>)
    ensures
        id > 0 ==> (r matches Ok(s) && s@ == decimal(id as nat)),
        id <= 0 ==> (r matches Err(e) && crate::rest::error::is_validation(e, "id"@, "task ID must be a positive integer"@)),
{
    crate::rest::domain::validate_id(id)?;
    Ok(decimal_string(id as u64))
}


/// The client only accepts lists in strictly ascending ID order: every list
/// it decodes after `previous` has increasing IDs above `previous`, each a
/// valid task.
pub proof fn law_list_response_ascending(items: Seq<JsonValue>, previous: i64)
    ensures
        items_outcome(items, previous) matches Ok(ts) ==> ids_increasing(ts) && forall|i: int|
            0 <= i < ts.len() ==> (#[trigger] ts[i]).id > previous,
    decreases items.len(),
{
    if items.len() > 0 {
        match task_outcome(items[0]) {
            Ok(t) => {
                law_list_response_ascending(items.drop_first(), t.id);
                match items_outcome(items.drop_first(), t.id) {
                    Ok(rest) => if t.id > previous {
                        let ts = seq![t] + rest;
                        assert forall|i: int| 0 <= i < ts.len() implies (#[trigger] ts[i]).id > previous by {
                            if i > 0 {
                                assert(ts[i] == rest[i - 1]);
                            }
                        }
                        assert forall|i: int, j: int| 0 <= i < j < ts.len() implies ts[i].id < ts[j].id by {
                            assert(ts[j] == rest[j - 1]);
                            if i > 0 {
                                assert(ts[i] == rest[i - 1]);
                            }
                        }
                    },
                    Err(_) => {},
                }
            },
            Err(_) => {},
        }
    }
}


/// The parts of a parsed URL that decide whether it can be a base URL.
pub struct UrlParts {
    pub scheme: String,
    pub has_host: bool,
    pub username: String,
    pub has_password: bool,
    pub has_query: bool,
    pub has_fragment: bool,
    pub path: String,
}

/// The abstract value of [`UrlParts`].
pub ghost struct UrlPartsView {
    pub scheme: Seq<char>,
    pub has_host: bool,
    pub username: Seq<char>,
    pub has_password: bool,
    pub has_query: bool,
    pub has_fragment: bool,
    pub path: Seq<char>,
}

impl View for UrlParts {
    type V = UrlPartsView;

    open spec fn view(&self) -> UrlPartsView {
        UrlPartsView {
            scheme: self.scheme@,
            has_host: self.has_host,
            username: self.username@,
            has_password: self.has_password,
            has_query: self.has_query,
            has_fragment: self.has_fragment,
            path: self.path@,
        }
    }
}

/// What `Url::parse` makes of a string: `None` when it is not a URL.
pub uninterp spec fn url_parts(raw: Seq<char>) -> Option<UrlPartsView>;

/// The serialization of the URL `raw` parses to, after `Url::set_path(path)`.
pub uninterp spec fn url_text_with_path(raw: Seq<char>, path: Seq<char>) -> Seq<char>;

/// `url::Url::parse` (re-exported by `reqwest`), read back through its
/// `scheme`, `host_str`, `username`, `password`, `query`, `fragment` and
/// `path` accessors. The result is a function of `raw` alone; what the URL
/// grammar accepts is not stated.
#[verifier::external_body]
fn parse_url(raw: &str) -> (r: Option<UrlParts>)
    ensures
        r matches Some(p) ==> url_parts(raw@) == Some(p@),
        r is None ==> url_parts(raw@) is None,
{
    reqwest::Url::parse(raw).ok().map(|url| UrlParts {
        scheme: url.scheme().to_owned(),
        has_host: url.host_str().is_some(),
        username: url.username().to_owned(),
        has_password: url.password().is_some(),
        has_query: url.query().is_some(),
        has_fragment: url.fragment().is_some(),
        path: url.path().to_owned(),
    })
}

/// `Url::set_path` on the URL `raw` parses to, then `Url::as_str`. Parsing is
/// a function of `raw`, so this succeeds exactly when [`parse_url`] does; the
/// serialized text is a function of `raw` and `path` alone.
#[verifier::external_body]
fn url_with_path(raw: &str, path: &str) -> (r: Option<String>)
    ensures
        r is Some <==> url_parts(raw@) is Some,
        r matches Some(t) ==> t@ == url_text_with_path(raw@, path@),
{
    reqwest::Url::parse(raw).ok().map(|mut url| {
        url.set_path(path);
        url.as_str().to_owned()
    })
}

/// `s` without its trailing `/` characters.
pub open spec fn trim_slashes(s: Seq<char>) -> Seq<char>
    decreases s.len(),
{
    if s.len() > 0 && s.last() == '/' {
        trim_slashes(s.drop_last())
    } else {
        s
    }
}

fn trimmed_slashes(s: &str) -> (r: String)
    ensures
        r@ == trim_slashes(s@),
{
    let chars = chars_of(s);
    let mut end = chars.len();
    assert(chars@.subrange(0, end as int) =~= s@);
    while end > 0 && chars[end - 1] == '/'
        invariant
            end <= chars@.len(),
            chars@ == s@,
            trim_slashes(s@) == trim_slashes(chars@.subrange(0, end as int)),
        decreases end,
    {
        assert(chars@.subrange(0, end as int).drop_last() =~= chars@.subrange(0, end - 1));
        end = end - 1;
    }
    assert(chars@.subrange(0, 0) =~= Seq::<char>::empty());
    crate::text::substring(chars.as_slice(), 0, end)
}

/// Whether the parts make an absolute HTTP or HTTPS URL with a host and no
/// credentials, query or fragment.
pub open spec fn usable_base(p: UrlPartsView) -> bool {
    &&& (p.scheme == "http"@ || p.scheme == "https"@)
    &&& p.has_host
    &&& p.username.len() == 0
    &&& !p.has_password
    &&& !p.has_query
    &&& !p.has_fragment
}

/// The canonical form of a base URL, or `None` when it is unusable: no
/// whitespace, an absolute HTTP(S) URL without credentials, query or
/// fragment, and no trailing slash.
pub open spec fn base_url_outcome(raw: Seq<char>) -> Option<Seq<char>> {
    if raw.len() == 0 || crate::text::trim(raw) != raw || exists|i: int| 0 <= i < raw.len() && crate::text::is_ws(#[trigger] raw[i]) {
        None
    } else {
        match url_parts(raw) {
            None => None,
            Some(p) => if !usable_base(p) {
                None
            } else {
                let path = trim_slashes(p.path);
                if path.len() == 0 {
                    Some(trim_slashes(url_text_with_path(raw, "/"@)))
                } else {
                    Some(url_text_with_path(raw, path))
                }
            },
        }
    }
}

fn invalid_base_url() -> (r: TaskError)
    ensures
        r matches TaskError::ClientConfiguration { field, message } && field@ == "base-url"@
            && message@ == "base URL must be an absolute HTTP or HTTPS URL"@,
{
    TaskError::client_configuration("base-url", "base URL must be an absolute HTTP or HTTPS URL")
}

/// Normalizes a base URL to the exact form a client stores, or reports why
/// it is unusable, so callers can validate a URL before making a client.
pub fn normalize_base_url(raw: &str) -> (r: Result<String, TaskError>)
    ensures
        base_url_outcome(raw@) matches Some(u) ==> (r matches Ok(s) && s@ == u),
        base_url_outcome(raw@) is None ==> (r matches Err(TaskError::ClientConfiguration { field, message })
            && field@ == "base-url"@ && message@ == "base URL must be an absolute HTTP or HTTPS URL"@),
{
    let chars = chars_of(raw);
    if chars.len() == 0 {
        return Err(invalid_base_url());
    }
    let trimmed = crate::text::trim_chars(chars.as_slice());
    if trimmed.len() != chars.len() {
        assert(crate::text::trim(raw@).len() != raw@.len());
        return Err(invalid_base_url());
    }
    let mut i: usize = 0;
    while i < chars.len()
        invariant
            i <= chars@.len(),
            chars@ == raw@,
            forall|j: int| 0 <= j < i ==> !crate::text::is_ws(#[trigger] raw@[j]),
        decreases chars.len() - i,
    {
        if crate::text::is_whitespace(chars[i]) {
            assert(crate::text::is_ws(raw@[i as int]));
            return Err(invalid_base_url());
        }
        i = i + 1;
    }
    proof {
        assert(!crate::text::is_ws(raw@[0]));
        assert(!crate::text::is_ws(raw@[raw@.len() - 1]));
        assert(crate::text::trim_start(raw@) == raw@);
        assert(crate::text::trim(raw@) == raw@);
    }
    let parts = match parse_url(raw) {
        Some(p) => p,
        None => {
            return Err(invalid_base_url());
        },
    };
    let http = string_eq(parts.scheme.as_str(), "http") || string_eq(parts.scheme.as_str(), "https");
    if !http || !parts.has_host || parts.username.as_str().unicode_len() != 0 || parts.has_password
        || parts.has_query || parts.has_fragment {
        return Err(invalid_base_url());
    }
    let path = trimmed_slashes(parts.path.as_str());
    if path.as_str().unicode_len() == 0 {
        match url_with_path(raw, "/") {
            Some(text) => Ok(trimmed_slashes(text.as_str())),
            None => Err(invalid_base_url()),
        }
    } else {
        match url_with_path(raw, path.as_str()) {
            Some(text) => Ok(text),
            None => Err(invalid_base_url()),
        }
    }
}


/// The characters of each string.
pub open spec fn texts(v: Seq<String>) -> Seq<Seq<char>> {
    v.map_values(|s: String| s@)
}

/// The characters of each pair of strings.
pub open spec fn text_pairs(v: Seq<(String, String)>) -> Seq<(Seq<char>, Seq<char>)> {
    v.map_values(|p: (String, String)| (p.0@, p.1@))
}

/// What `Url::parse(base)`, then `path_segments_mut`, `pop_if_empty` and
/// `extend(segments)`, then `Url::as_str` give: `None` when `base` does not
/// parse or cannot be a base.
pub uninterp spec fn segments_url_text(base: Seq<char>, segments: Seq<Seq<char>>) -> Option<Seq<char>>;

/// What the same steps, then `query_pairs_mut` with `clear` and
/// `extend_pairs(pairs)`, then `Url::as_str` give.
pub uninterp spec fn query_url_text(
    base: Seq<char>,
    segments: Seq<Seq<char>>,
    pairs: Seq<(Seq<char>, Seq<char>)>,
) -> Option<Seq<char>>;

/// Appends percent-encoded path segments to the URL `base` parses to, after
/// dropping a trailing empty segment, through `url::Url` (as re-exported by
/// `reqwest`). The result is a function of the arguments alone; which URLs
/// come out is not stated.
#[verifier::external_body]
fn segments_url(base: &str, segments: &Vec<String>) -> (r: Option<String>)
    ensures
        r matches Some(t) ==> segments_url_text(base@, texts(segments@)) == Some(t@),
        r is None ==> segments_url_text(base@, texts(segments@)) is None,
{
    let mut url = reqwest::Url::parse(base).ok()?;
    url.path_segments_mut().ok()?.pop_if_empty().extend(segments);
    Some(url.as_str().to_owned())
}

/// As [`segments_url`], then replaces the query with the form-encoded
/// `pairs`, in order.
#[verifier::external_body]
fn query_url(base: &str, segments: &Vec<String>, pairs: &Vec<(String, String)>) -> (r: Option<String>)
    ensures
        r matches Some(t) ==> query_url_text(base@, texts(segments@), text_pairs(pairs@)) == Some(t@),
        r is None ==> query_url_text(base@, texts(segments@), text_pairs(pairs@)) is None,
{
    let mut url = reqwest::Url::parse(base).ok()?;
    url.path_segments_mut().ok()?.pop_if_empty().extend(segments);
    url.query_pairs_mut().clear().extend_pairs(pairs);
    Some(url.as_str().to_owned())
}

/// The URL of a request, when the base can take path segments: the base
/// with `segments` appended and, only when there are any, `query` as its
/// form-encoded query.
pub open spec fn request_url_outcome(
    base: Seq<char>,
    segments: Seq<Seq<char>>,
    query: Seq<(Seq<char>, Seq<char>)>,
) -> Option<Seq<char>> {
    if query.len() == 0 {
        segments_url_text(base, segments)
    } else {
        query_url_text(base, segments, query)
    }
}

/// Builds the URL of a request on the base URL `base`: path segments
/// appended, keeping a base path prefix, and the query only when it has
/// pairs. A base that cannot take segments is a configuration error.
pub fn request_url(base: &str, segments: &Vec<String>, query: &Vec<(String, String)>) -> (r: Result<String, TaskError>)
    ensures
        request_url_outcome(base@, texts(segments@), text_pairs(query@)) matches Some(u) ==> (r matches Ok(s)
            && s@ == u),
        request_url_outcome(base@, texts(segments@), text_pairs(query@)) is None ==> (r matches Err(
            TaskError::ClientConfiguration { field, message },
        ) && field@ == "base-url"@ && message@ == "base URL must be an absolute HTTP or HTTPS URL"@),
{
    let built = if query.len() == 0 {
        segments_url(base, segments)
    } else {
        query_url(base, segments, query)
    };
    match built {
        Some(url) => Ok(url),
        None => Err(invalid_base_url()),
    }
}

/// The client accepts every valid task a server sends: an object holding
/// exactly the `completed`, `id` and `title` members of a valid task, in the
/// key order the strict reader produces, decodes to that task.
pub proof fn law_client_accepts_tasks(v: JsonValue, t: TaskView)
    requires
        t.id > 0,
        valid_title(t.title),
        v matches JsonValue::Object(ms) && ms@.len() == 3 && ms@[0].0@ == "completed"@ && ms@[0].1
            == JsonValue::Bool(t.completed) && ms@[1].0@ == "id"@ && ms@[1].1 == JsonValue::Number(
            JsonNumber::PosInt(t.id as u64),
        ) && ms@[2].0@ == "title"@ && (ms@[2].1 matches JsonValue::String(s) && s@ == t.title),
    ensures
        task_outcome(v) == Ok::<TaskView, Seq<char>>(t),
{
    reveal_strlit("completed");
    reveal_strlit("id");
    reveal_strlit("title");
    let ms = match v {
        JsonValue::Object(ms) => ms@,
        _ => Seq::empty(),
    };
    assert("completed"@ != "id"@ && "completed"@ != "title"@ && "id"@ != "title"@) by {
        assert("completed"@.len() != "id"@.len());
        assert("completed"@.len() != "title"@.len());
        assert("id"@.len() != "title"@.len());
    }
    assert(member_index(ms.drop_first(), "id"@) == 0);
    assert(member_index(ms, "id"@) == 1);
    assert(member_index(ms.drop_first().drop_first(), "title"@) == 0);
    assert(member_index(ms.drop_first(), "title"@) == 1);
    assert(member_index(ms, "title"@) == 2);
    assert(member_index(ms, "completed"@) == 0);
    let keys = seq!["completed"@, "id"@, "title"@];
    assert forall|i: int| 0 <= i < keys.len() implies member_index(ms, #[trigger] keys[i]) >= 0 by {
        if i == 0 {
            assert(keys[i] == "completed"@);
        } else if i == 1 {
            assert(keys[i] == "id"@);
        } else {
            assert(keys[i] == "title"@);
        }
    }
    assert(exact_members(v, keys) == Some(ms));
}

/// A documented error: its status has a code in the wire contract, it
/// carries that code and a non-empty message, and its details, when there
/// are any, are an object.
pub open spec fn documented(b: BoundaryError) -> bool {
    &&& expected_code(b.status) == Some(b.code@)
    &&& b.message@.len() > 0
    &&& (b.details matches Some(d) ==> d is Object)
}

/// The members of an error object are `code`, `message` and, when `b` has
/// details, `details`, holding `b`'s values in the order a server writes
/// them.
pub open spec fn envelope_fields(fields: Seq<(String, JsonValue)>, b: BoundaryError) -> bool {
    &&& fields.len() == (if b.details is Some { 3int } else { 2int })
    &&& fields[0].0@ == "code"@
    &&& fields[0].1 matches JsonValue::String(c) && c@ == b.code@
    &&& fields[1].0@ == "message"@
    &&& fields[1].1 matches JsonValue::String(m) && m@ == b.message@
    &&& b.details matches Some(d) ==> fields[2].0@ == "details"@ && fields[2].1 == d
}

/// `v` is the error envelope of `b`: an object whose one `error` member
/// holds the [`envelope_fields`] of `b`.
pub open spec fn envelope_of(v: JsonValue, b: BoundaryError) -> bool {
    match v {
        JsonValue::Object(outer) => outer@.len() == 1 && outer@[0].0@ == "error"@ && match outer@[0].1 {
            JsonValue::Object(fields) => envelope_fields(fields@, b),
            _ => false,
        },
        _ => false,
    }
}

proof fn lemma_key_texts()
    ensures
        json_quoted("error"@) == "\"error\""@,
        json_quoted("code"@) == "\"code\""@,
        json_quoted("message"@) == "\"message\""@,
        json_quoted("details"@) == "\"details\""@,
        "code"@ != "message"@ && "code"@ != "details"@ && "message"@ != "details"@,
{
    reveal_strlit("error");
    reveal_strlit("code");
    reveal_strlit("message");
    reveal_strlit("details");
    reveal_strlit("\"error\"");
    reveal_strlit("\"code\"");
    reveal_strlit("\"message\"");
    reveal_strlit("\"details\"");
    lemma_plain_quoted("error"@);
    lemma_plain_quoted("code"@);
    lemma_plain_quoted("message"@);
    lemma_plain_quoted("details"@);
    assert(json_quoted("error"@) =~= "\"error\""@);
    assert(json_quoted("code"@) =~= "\"code\""@);
    assert(json_quoted("message"@) =~= "\"message\""@);
    assert(json_quoted("details"@) =~= "\"details\""@);
    assert("code"@.len() != "message"@.len());
    assert("code"@.len() != "details"@.len());
    assert("message"@[0] != "details"@[0]);
}

/// What a server rejects a request with is what its client reports: the
/// body of a documented error response is the compact JSON text of its
/// envelope, and the client, handed that envelope with the response's
/// status, decodes an API error with the same code, message and details.
pub proof fn law_rejections_reach_the_client(b: BoundaryError, v: JsonValue)
    requires
        documented(b),
        envelope_of(v, b),
    ensures
        json_text(v) == error_text(b),
        api_error_outcome(b.status, v) == Ok::<ApiErrorView, Seq<char>>(
            ApiErrorView { code: b.code@, message: b.message@, details: b.details },
        ),
{
    lemma_key_texts();
    reveal_strlit("error");
    let outer = match v {
        JsonValue::Object(o) => o@,
        _ => Seq::empty(),
    };
    let fields = match outer[0].1 {
        JsonValue::Object(f) => f@,
        _ => Seq::empty(),
    };
    let code = fields[0].1;
    let message = fields[1].1;
    let rest = fields.subrange(1, fields.len() as int);
    assert(rest[0] == fields[1]);
    // The body text.
    assert(members_text(outer) == json_quoted("error"@) + ":"@ + json_text(outer[0].1));
    match b.details {
        Some(d) => {
            let last = rest.subrange(1, rest.len() as int);
            assert(last.len() == 1 && last[0] == fields[2]);
            assert(members_text(last) == json_quoted("details"@) + ":"@ + json_text(d));
            assert(members_text(rest) == json_quoted("message"@) + ":"@ + json_text(message) + ","@
                + members_text(last));
            assert(members_text(fields) == json_quoted("code"@) + ":"@ + json_text(code) + ","@
                + members_text(rest));
        },
        None => {
            assert(members_text(rest) == json_quoted("message"@) + ":"@ + json_text(message));
            assert(members_text(fields) == json_quoted("code"@) + ":"@ + json_text(code) + ","@
                + members_text(rest));
        },
    }
    reveal_strlit("\"error\"");
    reveal_strlit("\"code\"");
    reveal_strlit("\"message\"");
    reveal_strlit("\"details\"");
    reveal_strlit("{\"error\":{\"code\":");
    reveal_strlit(",\"message\":");
    reveal_strlit(",\"details\":");
    reveal_strlit("}}");
    reveal_strlit("{");
    reveal_strlit("}");
    reveal_strlit(":");
    reveal_strlit(",");
    assert("{\"error\":{\"code\":"@ =~= "{"@ + "\"error\""@ + ":"@ + "{"@ + "\"code\""@ + ":"@);
    assert(",\"message\":"@ =~= ","@ + "\"message\""@ + ":"@);
    assert(",\"details\":"@ =~= ","@ + "\"details\""@ + ":"@);
    assert("}}"@ =~= "}"@ + "}"@);
    assert(json_text(v) =~= error_text(b));
    // The client's reading.
    assert(member_index(outer, "error"@) == 0);
    assert(exact_members(v, seq!["error"@]) == Some(outer));
    assert(member_index(fields, "code"@) == 0);
    assert(member_index(fields.drop_first(), "message"@) == 0);
    assert(member_index(fields, "message"@) == 1);
    if b.details is Some {
        assert(member_index(fields.drop_first().drop_first(), "details"@) == 0);
        assert(member_index(fields.drop_first(), "details"@) == 1);
        assert(member_index(fields, "details"@) == 2);
    } else {
        assert(member_index(fields.drop_first().drop_first(), "details"@) == -1);
        assert(member_index(fields.drop_first(), "details"@) == -1);
        assert(member_index(fields, "details"@) == -1);
    }
    assert(error_keys_known(fields));
}

/// Every failure a server answers is documented, as long as a rejected
/// field comes with a message.
pub proof fn law_answers_are_documented(e: TaskError, b: BoundaryError)
    requires
        answers(e, b),
        e matches TaskError::Validation { message, .. } ==> message@.len() > 0,
    ensures
        documented(b),
{
    reveal_strlit("the server could not complete the request");
}

} // verus!
