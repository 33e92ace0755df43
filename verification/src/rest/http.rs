//! Framework-neutral HTTP responses: each route handler decides a status,
//! headers and a compact JSON body here, and a server adapter only copies
//! them onto its own response type.

use vstd::prelude::*;
use vstd::utf8::encode_utf8;

use crate::rest::boundary::{
    decode_create, decode_update, id_outcome, invalid_json, is_rejection, is_validation_error,
    map_task_error, no_query_outcome, object_outcome, opt_view, parse_id, validate_no_query,
    BoundaryError, BoundaryRejection, WireFormatError, JSON_CONTENT_TYPE,
};
use crate::rest::domain::{patch_title, TaskPatch};
use crate::rest::json::JsonValue;
use crate::text::signed_decimal;
use crate::rest::domain::{Task, TaskView};
use crate::rest::error::TaskError;
use crate::rest::json::{json_quoted, json_text, members_text, quote, render};
use crate::text::{
    chars_of, decimal, decimal_string, find_char, has_prefix, slice_chars, split_once_chars,
    starts_with, string_from_chars,
};

verus! {

/// A response as a server adapter sends it.
#[derive(Debug, PartialEq, Eq)]
pub struct HttpResponse {
    pub status: u16,
    pub headers: Vec<(String, String)>,
    pub body: Vec<u8>,
}

/// The body of the health check.
#[derive(Clone, Copy, Debug, PartialEq, Eq)]
pub struct HealthResponse {
    pub status: &'static str,
}

/// `headers` is exactly the JSON `Content-Type` header.
pub open spec fn json_headers(headers: Seq<(String, String)>) -> bool {
    headers.len() == 1 && headers[0].0@ == "Content-Type"@ && headers[0].1@ == JSON_CONTENT_TYPE@
}

/// `r` is a JSON response with `status` whose body is the UTF-8 of `text`.
pub open spec fn is_json_response(r: HttpResponse, status: u16, text: Seq<char>) -> bool {
    &&& r.status == status
    &&& json_headers(r.headers@)
    &&& r.body@ == encode_utf8(text)
}

/// The JSON text of a Boolean.
pub open spec fn bool_text(b: bool) -> Seq<char> {
    if b {
        "true"@
    } else {
        "false"@
    }
}

/// The JSON text of a task: its `id`, `title` and `completed` fields in
/// that order.
pub open spec fn task_text(t: TaskView) -> Seq<char> {
    "{\"id\":"@ + decimal(t.id as nat) + ",\"title\":"@ + json_quoted(t.title) + ",\"completed\":"@
        + bool_text(t.completed) + "}"@
}

/// The comma-separated texts of `tasks`.
pub open spec fn tasks_items(tasks: Seq<TaskView>) -> Seq<char>
    decreases tasks.len(),
{
    if tasks.len() == 0 {
        Seq::empty()
    } else if tasks.len() == 1 {
        task_text(tasks[0])
    } else {
        tasks_items(tasks.drop_last()) + ","@ + task_text(tasks.last())
    }
}

/// The JSON text of an array of tasks.
pub open spec fn tasks_text(tasks: Seq<TaskView>) -> Seq<char> {
    "["@ + tasks_items(tasks) + "]"@
}

/// The JSON text of the error envelope of `e`: code, message, and the
/// details when there are any.
pub open spec fn error_text(e: BoundaryError) -> Seq<char> {
    "{\"error\":{\"code\":"@ + json_quoted(e.code@) + ",\"message\":"@ + json_quoted(e.message@)
        + match e.details {
        Some(d) => ",\"details\":"@ + json_text(d),
        None => Seq::empty(),
    } + "}}"@
}

/// The JSON text of the envelope of a `422 validation_error` on `field`.
pub open spec fn rejection_text(field: Seq<char>, message: Seq<char>) -> Seq<char> {
    "{\"error\":{\"code\":"@ + json_quoted("validation_error"@) + ",\"message\":"@ + json_quoted(message)
        + ",\"details\":"@ + "{"@ + json_quoted("field"@) + ":"@ + json_quoted(field) + "}"@ + "}}"@
}

/// Every validation error has the same envelope shape.
pub proof fn lemma_rejection_text(e: BoundaryError, field: Seq<char>, message: Seq<char>)
    requires
        is_validation_error(e, field, message),
    ensures
        error_text(e) == rejection_text(field, message),
{
    match e.details {
        Some(d) => {
            match d {
                JsonValue::Object(ms) => {
                    assert(members_text(ms@) == json_quoted(ms@[0].0@) + ":"@
                        + json_text(ms@[0].1));
                },
                _ => {},
            }
        },
        None => {},
    }
}

fn bytes_of(text: String) -> (r: Vec<u8>)
    ensures
        r@ == encode_utf8(text@),
{
    text.as_str().as_bytes_vec()
}

fn json_headers_vec() -> (r: Vec<(String, String)>)
    ensures
        json_headers(r@),
{
    let mut headers: Vec<(String, String)> = Vec::new();
    headers.push((String::from_str("Content-Type"), String::from_str(JSON_CONTENT_TYPE)));
    headers
}

fn json_response(status: u16, text: String) -> (r: HttpResponse)
    ensures
        is_json_response(r, status, text@),
{
    HttpResponse { status, headers: json_headers_vec(), body: bytes_of(text) }
}

/// The JSON text of a task.
pub fn task_json(task: &Task) -> (r: String)
    ensures
        r@ == task_text(task@),
{
    let mut out = String::from_str("{\"id\":");
    out.append(decimal_string(task.id() as u64).as_str());
    out.append(",\"title\":");
    out.append(quote(task.title()).as_str());
    out.append(",\"completed\":");
    if task.completed() {
        out.append("true");
    } else {
        out.append("false");
    }
    out.append("}");
    out
}

/// The JSON text of a list of tasks.
pub fn tasks_json(tasks: &Vec<Task>) -> (r: String)
    ensures
        r@ == tasks_text(tasks@.map_values(|t: Task| t@)),
{
    let ghost all = tasks@.map_values(|t: Task| t@);
    let mut out = String::from_str("[");
    let mut i: usize = 0;
    while i < tasks.len()
        invariant
            i <= tasks@.len(),
            all == tasks@.map_values(|t: Task| t@),
            out@ == "["@ + tasks_items(all.subrange(0, i as int)),
        decreases tasks.len() - i,
    {
        let ghost before = all.subrange(0, i as int);
        if i > 0 {
            out.append(",");
        }
        out.append(task_json(&tasks[i]).as_str());
        proof {
            let next = all.subrange(0, i + 1);
            assert(next.drop_last() =~= before);
            assert(next.last() == tasks@[i as int]@);
            if i == 0 {
                assert(before.len() == 0);
            }
        }
        i = i + 1;
    }
    assert(all.subrange(0, i as int) =~= all);
    out.append("]");
    out
}

/// The error envelope of a rejected request as a response with the error's
/// status.
pub fn error_response(error: BoundaryError) -> (r: HttpResponse)
    ensures
        is_json_response(r, error.status, error_text(error)),
{
    let mut out = String::from_str("{\"error\":{\"code\":");
    out.append(quote(error.code.as_str()).as_str());
    out.append(",\"message\":");
    out.append(quote(error.message.as_str()).as_str());
    let ghost head = out@;
    match &error.details {
        Some(d) => {
            out.append(",\"details\":");
            out.append(render(d).as_str());
            out.append("}}");
            assert(out@ =~= head + (",\"details\":"@ + json_text(*d)) + "}}"@);
        },
        None => {
            out.append("}}");
            assert(out@ =~= head + Seq::<char>::empty() + "}}"@);
        },
    }
    json_response(error.status, out)
}

/// The `404` for a path no route matches.
pub fn route_not_found() -> (r: HttpResponse)
    ensures
        is_json_response(r, 404, envelope_text("not_found"@, "route was not found"@)),
{
    error_response(
        BoundaryError {
            status: 404,
            code: String::from_str("not_found"),
            message: String::from_str("route was not found"),
            details: None,
        },
    )
}

/// The `405` for a known path with an unsupported method; `Allow` lists the
/// methods the path accepts.
pub fn method_not_allowed(allow: &str) -> (r: HttpResponse)
    ensures
        r.status == 405,
        r.headers@.len() == 2,
        r.headers@[0].0@ == "Content-Type"@ && r.headers@[0].1@ == JSON_CONTENT_TYPE@,
        r.headers@[1].0@ == "Allow"@ && r.headers@[1].1@ == allow@,
        r.body@ == encode_utf8(envelope_text("method_not_allowed"@, "method is not allowed for this path"@)),
{
    let mut response = error_response(
        BoundaryError {
            status: 405,
            code: String::from_str("method_not_allowed"),
            message: String::from_str("method is not allowed for this path"),
            details: None,
        },
    );
    response.headers.push((String::from_str("Allow"), String::from_str(allow)));
    response
}

/// The `400` for a body the framework could not read as JSON.
pub fn invalid_body_response() -> (r: HttpResponse)
    ensures
        is_json_response(r, 400, envelope_text("invalid_json"@, "request body must be valid JSON"@)),
{
    error_response(invalid_json("request body must be valid JSON"))
}

/// The health check: `200 {"status":"ok"}` when the query is empty, else
/// the query's rejection.
pub fn health(query: Option<&str>) -> (r: HttpResponse)
    ensures
        no_query_outcome(opt_view(query)) is Ok ==> is_json_response(r, 200, "{\"status\":"@ + json_quoted("ok"@) + "}"@),
        no_query_outcome(opt_view(query)) matches Err((f, m)) ==> is_json_response(r, 422, rejection_text(f, m)),
{
    match validate_no_query(query) {
        Ok(()) => {
            let body = HealthResponse { status: "ok" };
            let mut out = String::from_str("{\"status\":");
            out.append(quote(body.status).as_str());
            out.append("}");
            json_response(200, out)
        },
        Err(error) => {
            proof {
                match no_query_outcome(opt_view(query)) {
                    Err((f, m)) => lemma_rejection_text(error, f, m),
                    Ok(_) => {},
                }
            }
            error_response(error)
        },
    }
}


/// The JSON text of an error envelope without details.
pub open spec fn envelope_text(code: Seq<char>, message: Seq<char>) -> Seq<char> {
    "{\"error\":{\"code\":"@ + json_quoted(code) + ",\"message\":"@ + json_quoted(message) + "}}"@
}

/// The status and body text a service failure is answered with: validation
/// errors keep their field and message, a missing task is a `404`, and every
/// other failure is a sanitized `500`.
pub open spec fn task_error_reply(e: TaskError) -> (u16, Seq<char>) {
    match e {
        TaskError::Validation { field, message } => (422, rejection_text(field@, message@)),
        TaskError::NotFound { id } => (
            404,
            envelope_text("not_found"@, "task "@ + signed_decimal(id) + " was not found"@),
        ),
        _ => (500, envelope_text("internal_error"@, "the server could not complete the request"@)),
    }
}

/// Whether a service failure is worth reporting to the operator: storage,
/// internal and unfinished-capability failures are; client mistakes are not.
pub fn should_report(error: &TaskError) -> (r: bool)
    ensures
        r == (error is Storage || error is Internal || error is Incomplete),
{
    match error {
        TaskError::Storage { .. } | TaskError::Internal { .. } | TaskError::Incomplete { .. } => true,
        _ => false,
    }
}

/// The response to a failed service call.
pub fn service_error_response(error: &TaskError) -> (r: HttpResponse)
    ensures
        is_json_response(r, task_error_reply(*error).0, task_error_reply(*error).1),
{
    let mapped = map_task_error(error);
    proof {
        if let TaskError::Validation { field, message } = error {
            lemma_rejection_text(mapped, field@, message@);
        }
    }
    error_response(mapped)
}

/// The response to a call that yields one task: `success` with the task's
/// JSON, or the failure's response.
pub fn task_reply(success: u16, outcome: &Result<Task, TaskError>) -> (r: HttpResponse)
    ensures
        *outcome matches Ok(t) ==> is_json_response(r, success, task_text(t@)),
        *outcome matches Err(e) ==> is_json_response(r, task_error_reply(e).0, task_error_reply(e).1),
{
    match outcome {
        Ok(task) => json_response(success, task_json(task)),
        Err(error) => service_error_response(error),
    }
}

/// The response to a list call: `200` with the tasks' JSON array, or the
/// failure's response.
pub fn tasks_reply(outcome: &Result<Vec<Task>, TaskError>) -> (r: HttpResponse)
    ensures
        *outcome matches Ok(ts) ==> is_json_response(r, 200, tasks_text(ts@.map_values(|t: Task| t@))),
        *outcome matches Err(e) ==> is_json_response(r, task_error_reply(e).0, task_error_reply(e).1),
{
    match outcome {
        Ok(tasks) => json_response(200, tasks_json(tasks)),
        Err(error) => service_error_response(error),
    }
}

/// The response to a delete call: an empty `204`, or the failure's response.
pub fn deleted_reply(outcome: &Result<(), TaskError>) -> (r: HttpResponse)
    ensures
        outcome is Ok ==> r.status == 204 && r.headers@.len() == 0 && r.body@.len() == 0,
        *outcome matches Err(e) ==> is_json_response(r, task_error_reply(e).0, task_error_reply(e).1),
{
    match outcome {
        Ok(()) => HttpResponse { status: 204, headers: Vec::new(), body: Vec::new() },
        Err(error) => service_error_response(error),
    }
}

/// The outcome of a route that takes an ID in its path and no query.
pub open spec fn id_request_outcome(raw_id: Seq<char>, query: Option<Seq<char>>) -> Result<i64, (Seq<char>, Seq<char>)> {
    match no_query_outcome(query) {
        Err(rejection) => Err(rejection),
        Ok(_) => match id_outcome(raw_id) {
            Some(id) => Ok(id),
            None => Err(("id"@, "task ID must be a positive integer"@)),
        },
    }
}

/// Checks a route that takes an ID: the query must be empty, then the path
/// segment must be a positive ID.
pub fn id_request(raw_id: &str, query: Option<&str>) -> (r: Result<i64, BoundaryError>)
    ensures
        id_request_outcome(raw_id@, opt_view(query)) matches Ok(id) ==> r == Ok::<i64, BoundaryError>(id),
        id_request_outcome(raw_id@, opt_view(query)) matches Err((f, m)) ==> (r matches Err(e)
            && is_validation_error(e, f, m)),
{
    validate_no_query(query)?;
    parse_id(raw_id)
}

/// Checks a create request: the query must be empty, then the body must be a
/// JSON object with a valid `title` only. `document` is the strict JSON parse
/// of `body`.
pub fn create_request(
    query: Option<&str>,
    content_type: Option<&str>,
    body: &[u8],
    document: Result<JsonValue, WireFormatError>,
) -> (r: Result<String, BoundaryError>)
    ensures
        no_query_outcome(opt_view(query)) matches Err((f, m)) ==> (r matches Err(e)
            && is_validation_error(e, f, m)),
        no_query_outcome(opt_view(query)) is Ok ==> {
            &&& r is Ok <==> crate::rest::boundary::create_request_outcome(opt_view(content_type), body@, document) is Ok
            &&& r matches Ok(t) ==> crate::rest::boundary::create_request_outcome(opt_view(content_type), body@, document)
                == Ok::<Seq<char>, BoundaryRejection>(t@)
            &&& crate::rest::boundary::create_request_outcome(opt_view(content_type), body@, document) matches Err(j)
                ==> (r matches Err(e) && is_rejection(e, j))
        },
{
    validate_no_query(query)?;
    decode_create(content_type, body, document)
}

/// Checks an update request: the query must be empty and the path segment a
/// positive ID before the body is decoded into a normalized patch.
/// `document` is the strict JSON parse of `body`.
pub fn update_request(
    raw_id: &str,
    query: Option<&str>,
    content_type: Option<&str>,
    body: &[u8],
    document: Result<JsonValue, WireFormatError>,
) -> (r: Result<(i64, TaskPatch), BoundaryError>)
    ensures
        id_request_outcome(raw_id@, opt_view(query)) matches Err((f, m)) ==> (r matches Err(e)
            && is_validation_error(e, f, m)),
        id_request_outcome(raw_id@, opt_view(query)) matches Ok(id) ==> {
            &&& object_outcome(opt_view(content_type), body@, document) matches Err(j) ==> (r matches Err(e)
                && is_rejection(e, j))
            &&& object_outcome(opt_view(content_type), body@, document) matches Ok(ms) ==> {
                &&& r is Ok <==> crate::rest::boundary::update_outcome(ms) is Ok
                &&& r matches Ok((i, p)) ==> i == id && crate::rest::boundary::update_outcome(ms) == Ok::<
                    Option<Seq<char>>,
                    (Seq<char>, Seq<char>),
                >(patch_title(p)) && p.completed == crate::rest::boundary::update_completed(ms)
                &&& crate::rest::boundary::update_outcome(ms) matches Err((f, m)) ==> (r matches Err(e)
                    && is_validation_error(e, f, m))
            }
        },
{
    let id = id_request(raw_id, query)?;
    let patch = decode_update(content_type, body, document)?;
    Ok((id, patch))
}


/// The ID segment of a `/tasks/{id}` path: what follows the prefix, when it
/// holds no further `/`.
pub open spec fn raw_id_outcome(path: Seq<char>) -> Option<Seq<char>> {
    let p = "/tasks/"@;
    if has_prefix(path, p) {
        let id = path.subrange(p.len() as int, path.len() as int);
        if find_char(id, '/') < 0 {
            Some(id)
        } else {
            None
        }
    } else {
        None
    }
}

/// Splits the ID segment from a `/tasks/{id}` path. The boundary re-validates
/// it, so a caller may default a missing segment to the empty string.
pub fn raw_id(path: &str) -> (r: Option<String>)
    ensures
        raw_id_outcome(path@) matches Some(id) ==> (r matches Some(s) && s@ == id),
        raw_id_outcome(path@) is None ==> r is None,
{
    proof {
        reveal_strlit("/tasks/");
    }
    let chars = chars_of(path);
    if !starts_with(chars.as_slice(), "/tasks/") {
        return None;
    }
    let id = slice_chars(chars.as_slice(), 7, chars.len());
    match split_once_chars(id.as_slice(), '/') {
        Some(_) => None,
        None => Some(string_from_chars(id.as_slice())),
    }
}


/// The operator-facing reporter that writes failures to standard error.
#[derive(Clone, Copy, Debug, Default)]
pub struct StderrReporter;

impl StderrReporter {
    /// The line this reporter writes for a failure.
    pub fn line(&self, error: &TaskError) -> (r: String)
        ensures
            r@ == "tasks-api: internal request failure: "@ + crate::rest::error::error_text(*error),
    {
        let mut line = String::from_str("tasks-api: internal request failure: ");
        line.append(error.message().as_str());
        line
    }
}

} // verus!
