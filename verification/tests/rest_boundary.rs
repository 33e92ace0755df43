use task_manager::rest::boundary::{
    decode_create, decode_update, hex, map_task_error, parse_id, parse_list_filter, parse_query,
    percent_decode, validate_json_content_type, validate_no_query, validate_request_content_type,
    BoundaryError, WireFormatError, MAX_BODY_BYTES,
};
use task_manager::rest::domain::TaskFilter;
use task_manager::rest::error::TaskError;
use task_manager::rest::json::JsonValue;

fn text(value: &str) -> JsonValue {
    JsonValue::String(String::from(value))
}

fn object(members: Vec<(&str, JsonValue)>) -> JsonValue {
    JsonValue::Object(members.into_iter().map(|(k, v)| (String::from(k), v)).collect())
}

fn assert_validation(error: &BoundaryError, field: &str, message: &str) {
    assert_eq!(error.status, 422);
    assert_eq!(error.code, "validation_error");
    assert_eq!(error.message, message);
    assert_eq!(error.details, Some(object(vec![("field", text(field))])));
}

fn assert_invalid_json(error: &BoundaryError, message: &str) {
    assert_eq!(error.status, 400);
    assert_eq!(error.code, "invalid_json");
    assert_eq!(error.message, message);
    assert_eq!(error.details, None);
}

const JSON: Option<&str> = Some("application/json");

#[test]
fn ids_must_be_plain_positive_decimals() {
    assert_eq!(parse_id("42").expect("id"), 42);
    assert_eq!(parse_id("9223372036854775807").expect("max"), i64::MAX);
    for raw in ["0", "+1", "\u{661}", "1.0", "", "9223372036854775808", "-3", " 1"] {
        let error = parse_id(raw).expect_err(raw);
        assert_validation(&error, "id", "task ID must be a positive integer");
    }
}

#[test]
fn list_filter_accepts_only_one_boolean() {
    assert_eq!(parse_list_filter(None).expect("none"), TaskFilter { completed: None });
    assert_eq!(parse_list_filter(Some("")).expect("empty"), TaskFilter { completed: None });
    assert_eq!(
        parse_list_filter(Some("completed=true")).expect("true"),
        TaskFilter { completed: Some(true) }
    );
    assert_eq!(
        parse_list_filter(Some("completed=f%61lse")).expect("encoded"),
        TaskFilter { completed: Some(false) }
    );
    for (query, field, message) in [
        ("completed=True", "completed", "completed filter must be true or false"),
        ("completed=true&completed=false", "completed", "completed filter must be true or false"),
        ("other=true", "other", "unknown query parameter: other"),
        ("zeta=1&alpha=2&completed=true", "alpha", "unknown query parameter: alpha"),
    ] {
        let error = parse_list_filter(Some(query)).expect_err(query);
        assert_validation(&error, field, message);
    }
}

#[test]
fn routes_without_parameters_reject_the_smallest_key() {
    assert!(validate_no_query(None).is_ok());
    assert!(validate_no_query(Some("")).is_ok());
    let error = validate_no_query(Some("b=1&a=2")).expect_err("query");
    assert_validation(&error, "a", "unknown query parameter: a");
    let error = validate_no_query(Some("%zz=1")).expect_err("bad key");
    assert_validation(&error, "query", "query string must be valid URL encoding");
    let error = validate_no_query(Some("a=%f")).expect_err("bad value");
    assert_validation(&error, "a", "invalid query parameter: a");
}

#[test]
fn query_pairs_keep_their_order_and_decode() {
    let pairs = parse_query(Some("a+b=c%20d&flag&x=1=2")).expect("pairs");
    assert_eq!(
        pairs,
        vec![
            (String::from("a b"), String::from("c d")),
            (String::from("flag"), String::new()),
            (String::from("x"), String::from("1=2")),
        ]
    );
    assert!(parse_query(None).expect("none").is_empty());
}

#[test]
fn percent_decoding_follows_form_encoding() {
    assert_eq!(percent_decode("%41b+c").as_deref(), Some("Ab c"));
    assert_eq!(percent_decode("%e2%82%ac").as_deref(), Some("\u{20ac}"));
    assert_eq!(percent_decode("%"), None);
    assert_eq!(percent_decode("%4"), None);
    assert_eq!(percent_decode("%ff"), None);
    assert_eq!(hex(b'7'), Some(7));
    assert_eq!(hex(b'b'), Some(11));
    assert_eq!(hex(b'F'), Some(15));
    assert_eq!(hex(b'g'), None);
}

#[test]
fn json_content_type_allows_only_utf8_charset() {
    assert!(validate_json_content_type(Some("application/json")).is_ok());
    assert!(validate_json_content_type(Some(" Application/JSON ; Charset=\"utf-8\"")).is_ok());
    assert!(validate_json_content_type(Some("application/json; charset=utf-8")).is_ok());
    assert_eq!(validate_json_content_type(None), Err(WireFormatError));
    assert_eq!(validate_json_content_type(Some("text/plain")), Err(WireFormatError));
    assert_eq!(
        validate_json_content_type(Some("application/json; charset=iso-8859-1")),
        Err(WireFormatError)
    );
    assert_eq!(validate_json_content_type(Some("application/json; utf-8")), Err(WireFormatError));
}

#[test]
fn request_content_type_errors_explain_themselves() {
    assert!(validate_request_content_type(JSON).is_ok());
    let error = validate_request_content_type(None).expect_err("missing");
    assert_invalid_json(&error, "request Content-Type must be application/json");
    let error = validate_request_content_type(Some("text/plain")).expect_err("type");
    assert_invalid_json(&error, "request Content-Type must be application/json");
    let error =
        validate_request_content_type(Some("application/json; charset=iso-8859-1")).expect_err("charset");
    assert_invalid_json(&error, "request JSON charset must be UTF-8");
}

#[test]
fn create_bodies_are_strict() {
    let title = decode_create(JSON, br#"{"title":"  Learn REST  "}"#, Ok(object(vec![("title", text("  Learn REST  "))])))
        .expect("title");
    assert_eq!(title, "Learn REST");

    let error = decode_create(None, b"{}", Ok(object(vec![]))).expect_err("type");
    assert_invalid_json(&error, "request Content-Type must be application/json");
    let error = decode_create(JSON, &[0xff], Err(WireFormatError)).expect_err("utf8");
    assert_invalid_json(&error, "request body must be valid JSON");
    let error = decode_create(JSON, b"{", Err(WireFormatError)).expect_err("malformed");
    assert_invalid_json(&error, "request body must be valid JSON");
    let mut oversized = vec![b' '; MAX_BODY_BYTES + 1];
    oversized[0] = b'{';
    let error = decode_create(JSON, &oversized, Ok(object(vec![]))).expect_err("oversized");
    assert_invalid_json(&error, "request body must be valid JSON");

    let error = decode_create(JSON, b"[]", Ok(JsonValue::Array(vec![]))).expect_err("shape");
    assert_validation(&error, "body", "request body must be a JSON object");
    let error = decode_create(JSON, b"{}", Ok(object(vec![]))).expect_err("missing");
    assert_validation(&error, "title", "missing property: title");
    let body = object(vec![("title", text("x")), ("done", JsonValue::Bool(false))]);
    let error = decode_create(JSON, b"{}", Ok(body)).expect_err("unknown");
    assert_validation(&error, "done", "unknown property: done");
    let error = decode_create(JSON, b"{}", Ok(object(vec![("title", JsonValue::Null)]))).expect_err("null");
    assert_validation(&error, "title", "title must be a string");
    let error = decode_create(JSON, b"{}", Ok(object(vec![("title", text(" "))]))).expect_err("empty");
    assert_validation(&error, "title", "title must contain between 1 and 120 characters");
}

#[test]
fn update_bodies_are_strict() {
    let patch = decode_update(
        JSON,
        b"{}",
        Ok(object(vec![("title", text(" New ")), ("completed", JsonValue::Bool(true))])),
    )
    .expect("patch");
    assert_eq!(patch.title.as_deref(), Some("New"));
    assert_eq!(patch.completed, Some(true));

    for (body, field, message) in [
        (object(vec![]), "update", "update must include title or completed"),
        (object(vec![("completed", JsonValue::Null)]), "completed", "completed must be a Boolean"),
        (object(vec![("title", JsonValue::Null)]), "title", "title must be a string"),
        (object(vec![("id", JsonValue::Null)]), "id", "unknown property: id"),
    ] {
        let error = decode_update(JSON, b"{}", Ok(body)).expect_err(message);
        assert_validation(&error, field, message);
    }
}

#[test]
fn task_errors_are_sanitized_for_clients() {
    let error = map_task_error(&TaskError::not_found(7));
    assert_eq!((error.status, error.code.as_str()), (404, "not_found"));
    assert_eq!(error.message, "task 7 was not found");
    let error = map_task_error(&TaskError::validation("title", "bad"));
    assert_validation(&error, "title", "bad");
    let error = map_task_error(&TaskError::storage("list tasks", "private storage detail"));
    assert_eq!((error.status, error.code.as_str()), (500, "internal_error"));
    assert_eq!(error.message, "the server could not complete the request");
    assert_eq!(error.details, None);
}
