use task_manager::rest::boundary::{BoundaryError, WireFormatError, JSON_CONTENT_TYPE};
use task_manager::rest::domain::Task;
use task_manager::rest::error::TaskError;
use task_manager::rest::http::{
    create_request, deleted_reply, error_response, health, id_request, invalid_body_response,
    method_not_allowed, raw_id, route_not_found, StderrReporter, service_error_response, should_report, task_json,
    task_reply, tasks_json, tasks_reply, update_request, HttpResponse,
};
use task_manager::rest::json::{render, JsonNumber, JsonValue};

fn text(value: &str) -> JsonValue {
    JsonValue::String(String::from(value))
}

fn object(members: Vec<(&str, JsonValue)>) -> JsonValue {
    JsonValue::Object(members.into_iter().map(|(k, v)| (String::from(k), v)).collect())
}

fn json_headers() -> Vec<(String, String)> {
    vec![(String::from("Content-Type"), String::from(JSON_CONTENT_TYPE))]
}

fn body(response: &HttpResponse) -> String {
    String::from_utf8(response.body.clone()).expect("utf-8 body")
}

#[test]
fn fixed_error_responses_have_stable_bodies() {
    let response = route_not_found();
    assert_eq!(response.status, 404);
    assert_eq!(response.headers, json_headers());
    assert_eq!(body(&response), r#"{"error":{"code":"not_found","message":"route was not found"}}"#);

    let response = method_not_allowed("GET, POST");
    assert_eq!(response.status, 405);
    assert_eq!(
        response.headers,
        vec![
            (String::from("Content-Type"), String::from(JSON_CONTENT_TYPE)),
            (String::from("Allow"), String::from("GET, POST")),
        ]
    );
    assert_eq!(
        body(&response),
        r#"{"error":{"code":"method_not_allowed","message":"method is not allowed for this path"}}"#
    );

    let response = invalid_body_response();
    assert_eq!(response.status, 400);
    assert_eq!(
        body(&response),
        r#"{"error":{"code":"invalid_json","message":"request body must be valid JSON"}}"#
    );
}

#[test]
fn health_is_ok_without_a_query() {
    let response = health(None);
    assert_eq!(response.status, 200);
    assert_eq!(response.headers, json_headers());
    assert_eq!(body(&response), r#"{"status":"ok"}"#);

    let response = health(Some("verbose=1"));
    assert_eq!(response.status, 422);
    assert_eq!(
        body(&response),
        r#"{"error":{"code":"validation_error","message":"unknown query parameter: verbose","details":{"field":"verbose"}}}"#
    );
}

#[test]
fn tasks_render_as_compact_json() {
    let task = Task::from_parts(1, "Learn \"REST\"", false).expect("task");
    assert_eq!(task_json(&task), r#"{"id":1,"title":"Learn \"REST\"","completed":false}"#);
    let done = Task::from_parts(12, "Ship", true).expect("task");
    assert_eq!(
        tasks_json(&vec![task, done]),
        r#"[{"id":1,"title":"Learn \"REST\"","completed":false},{"id":12,"title":"Ship","completed":true}]"#
    );
    assert_eq!(tasks_json(&Vec::new()), "[]");
}

#[test]
fn values_render_like_serde_json() {
    let value = object(vec![
        ("a", JsonValue::Array(vec![JsonValue::Null, JsonValue::Bool(true)])),
        ("b", JsonValue::Number(JsonNumber::NegInt(-5))),
        ("c", JsonValue::Number(JsonNumber::PosInt(18446744073709551615))),
        ("d", JsonValue::Number(JsonNumber::Other(String::from("1.5")))),
        ("e", text("line\nbreak")),
        ("f", object(vec![])),
    ]);
    assert_eq!(
        render(&value),
        r#"{"a":[null,true],"b":-5,"c":18446744073709551615,"d":1.5,"e":"line\nbreak","f":{}}"#
    );
}

#[test]
fn strings_escape_quotes_backslashes_and_controls() {
    let value = text("q\"b\\t\tn\nr\rf\u{c}b\u{8}u\u{1}\u{1f}\u{7f}é");
    assert_eq!(render(&value), "\"q\\\"b\\\\t\\tn\\nr\\rf\\fb\\bu\\u0001\\u001f\u{7f}é\"");
}

#[test]
fn service_outcomes_map_to_statuses() {
    let task = Task::from_parts(3, "Read", false).expect("task");
    let response = task_reply(201, &Ok(task));
    assert_eq!(response.status, 201);
    assert_eq!(body(&response), r#"{"id":3,"title":"Read","completed":false}"#);

    let response = task_reply(200, &Err(TaskError::not_found(9)));
    assert_eq!(response.status, 404);
    assert_eq!(body(&response), r#"{"error":{"code":"not_found","message":"task 9 was not found"}}"#);

    let storage = TaskError::storage("get task", "private storage detail");
    assert!(should_report(&storage));
    let response = service_error_response(&storage);
    assert_eq!(response.status, 500);
    assert_eq!(
        body(&response),
        r#"{"error":{"code":"internal_error","message":"the server could not complete the request"}}"#
    );
    assert!(!body(&response).contains("private"));
    assert!(should_report(&TaskError::internal("list tasks", "panic")));
    assert!(!should_report(&TaskError::not_found(1)));
    assert!(!should_report(&TaskError::validation("title", "bad")));

    let response = tasks_reply(&Ok(Vec::new()));
    assert_eq!((response.status, body(&response)), (200, String::from("[]")));

    let response = deleted_reply(&Ok(()));
    assert_eq!(response, HttpResponse { status: 204, headers: Vec::new(), body: Vec::new() });
    let response = deleted_reply(&Err(TaskError::validation("id", "task ID must be a positive integer")));
    assert_eq!(response.status, 422);
}

#[test]
fn error_envelopes_include_details_only_when_present() {
    let error = BoundaryError {
        status: 400,
        code: String::from("invalid_json"),
        message: String::from("bad"),
        details: None,
    };
    assert_eq!(body(&error_response(error)), r#"{"error":{"code":"invalid_json","message":"bad"}}"#);
}

#[test]
fn requests_check_query_then_path_then_body() {
    assert_eq!(id_request("5", None).expect("id"), 5);
    let error = id_request("x", Some("q=1")).expect_err("query first");
    assert_eq!(error.message, "unknown query parameter: q");
    let error = id_request("x", None).expect_err("id");
    assert_eq!(error.message, "task ID must be a positive integer");

    let document = Ok(object(vec![("title", text(" Plan "))]));
    let title = create_request(None, Some("application/json"), b"{}", document).expect("create");
    assert_eq!(title, "Plan");
    let error = create_request(Some("a=1"), None, b"", Err(WireFormatError)).expect_err("query");
    assert_eq!(error.status, 422);

    let document = Ok(object(vec![("completed", JsonValue::Bool(true))]));
    let (id, patch) = update_request("8", None, Some("application/json"), b"{}", document).expect("update");
    assert_eq!(id, 8);
    assert_eq!(patch.completed, Some(true));
    assert_eq!(patch.title, None);
    let error = update_request("0", None, Some("application/json"), b"{}", Err(WireFormatError))
        .expect_err("id first");
    assert_eq!(error.message, "task ID must be a positive integer");
}

#[test]
fn task_paths_yield_their_id_segment() {
    assert_eq!(raw_id("/tasks/12").as_deref(), Some("12"));
    assert_eq!(raw_id("/tasks/").as_deref(), Some(""));
    assert_eq!(raw_id("/tasks/1/extra"), None);
    assert_eq!(raw_id("/task/1"), None);
}

#[test]
fn the_emitted_content_type_is_accepted_by_the_client() {
    assert!(task_manager::rest::boundary::validate_json_content_type(Some(JSON_CONTENT_TYPE)).is_ok());
}

#[test]
fn the_stderr_reporter_names_the_failure() {
    let line = StderrReporter.line(&TaskError::storage("list tasks", "disk full"));
    assert_eq!(line, "tasks-api: internal request failure: task storage list tasks failed: disk full");
}
