use task_manager::rest::domain::{
    is_physical_line_break, normalize_filter, normalize_patch, normalize_title, validate_id,
    validate_patch, validate_title, Task, TaskFilter, TaskPatch, MAX_TITLE_LENGTH,
};
use task_manager::rest::error::TaskError;
use task_manager::rest::json::JsonValue;
use task_manager::rest::sqlite::{
    bool_integer, canonical_sql, delete_outcome, list_statement, schema_matches, task_from_parts,
    SCHEMA,
};
use task_manager::text::{
    decimal_string, is_control, is_whitespace, signed_decimal_string, string_from_chars,
};

fn details(error: &TaskError) -> (String, String) {
    let (field, message) = error.validation_details().expect("validation error");
    (field.to_owned(), message.to_owned())
}

#[test]
fn titles_are_trimmed_and_bounded() {
    assert_eq!(normalize_title("  Learn REST  ").expect("title"), "Learn REST");
    let longest: String = "é".repeat(MAX_TITLE_LENGTH);
    assert_eq!(normalize_title(&format!(" {longest} ")).expect("120 characters"), longest);
    let too_long: String = "a".repeat(MAX_TITLE_LENGTH + 1);
    for (raw, message) in [
        ("   ", "title must contain between 1 and 120 characters"),
        (too_long.as_str(), "title must contain between 1 and 120 characters"),
        ("a\nb", "title must occupy one physical line"),
        ("a\u{2028}b", "title must occupy one physical line"),
        ("a\u{7}b", "title must not contain control characters"),
        ("a\u{9f}b", "title must not contain control characters"),
    ] {
        let error = normalize_title(raw).expect_err(raw);
        assert_eq!(details(&error), (String::from("title"), String::from(message)), "{raw:?}");
    }
}

#[test]
fn stored_titles_must_already_be_normalized() {
    assert!(validate_title("Ready").is_ok());
    let error = validate_title(" Ready").expect_err("padded");
    assert_eq!(details(&error).1, "title must not have leading or trailing whitespace");
    assert!(validate_id(1).is_ok());
    assert_eq!(details(&validate_id(0).expect_err("zero")).1, "task ID must be a positive integer");
}

#[test]
fn tasks_come_only_from_valid_parts() {
    let task = Task::from_parts(3, "Write", true).expect("task");
    assert_eq!((task.id(), task.title(), task.completed()), (3, "Write", true));
    let error = Task::from_parts(-1, " bad ", false).expect_err("id checked first");
    assert_eq!(details(&error).0, "id");
    let error = Task::from_parts(1, " bad ", false).expect_err("title");
    assert_eq!(details(&error).0, "title");
    assert_eq!(task.clone(), task);
}

#[test]
fn patches_need_a_field_and_normalize_titles() {
    let patch = normalize_patch(TaskPatch { title: Some(String::from(" x ")), completed: None }).expect("patch");
    assert_eq!(patch, TaskPatch { title: Some(String::from("x")), completed: None });
    let error = normalize_patch(TaskPatch::default()).expect_err("empty");
    assert_eq!(details(&error), (String::from("update"), String::from("update must include title or completed")));
    assert!(validate_patch(&TaskPatch { title: None, completed: Some(false) }).is_ok());
    assert!(validate_patch(&TaskPatch { title: Some(String::from("x ")), completed: None }).is_err());
    let filter = TaskFilter { completed: Some(true) };
    assert_eq!(normalize_filter(filter), filter);
}

#[test]
fn character_classes_match_std() {
    for code in 0u32..0x3100 {
        if let Some(c) = char::from_u32(code) {
            assert_eq!(is_whitespace(c), c.is_whitespace(), "{code:x}");
            assert_eq!(is_control(c), c.is_control(), "{code:x}");
        }
    }
    assert!(is_physical_line_break('\u{85}'));
    assert!(is_physical_line_break('\r'));
    assert!(!is_physical_line_break('\t'));
}

#[test]
fn numbers_and_strings_render_exactly() {
    assert_eq!(decimal_string(0), "0");
    assert_eq!(decimal_string(18446744073709551615), "18446744073709551615");
    assert_eq!(signed_decimal_string(-9223372036854775808), "-9223372036854775808");
    assert_eq!(signed_decimal_string(42), "42");
    let chars: Vec<char> = "añ€😀".chars().collect();
    assert_eq!(string_from_chars(&chars), "añ€😀");
}

#[test]
fn error_texts_match_the_display_forms() {
    assert_eq!(TaskError::not_found(7).message(), "task 7 was not found");
    assert_eq!(TaskError::storage("list tasks", "disk full").message(), "task storage list tasks failed: disk full");
    assert_eq!(TaskError::internal("create task", "panic").message(), "internal operation create task failed: panic");
    assert_eq!(TaskError::api(404, "not_found", "missing", None).message(), "API returned 404 not_found: missing");
    assert_eq!(TaskError::unexpected_response("x").message(), "unexpected server response: x");
    assert_eq!(TaskError::connection("refused", false).message(), "request failed");
    assert_eq!(TaskError::lifecycle("serve", "closed").message(), "server lifecycle serve failed: closed");
    assert_eq!(TaskError::incomplete("milestone").message(), "incomplete project capability: milestone");
    assert_eq!(TaskError::validation("title", "bad").message(), "bad");
}

#[test]
fn task_errors_keep_their_details() {
    let details = JsonValue::Object(vec![(String::from("id"), JsonValue::Number(task_manager::rest::json::JsonNumber::PosInt(7)))]);
    let api = TaskError::api(404, "not_found", "missing", Some(details));
    let (status, code, message, details) = api.api_details().expect("API details");
    assert_eq!((status, code, message), (404, "not_found", "missing"));
    assert_eq!(details.expect("API detail").get("id").and_then(JsonValue::as_i64), Some(7));

    let malformed = TaskError::unexpected_response("wrong shape");
    assert_eq!(malformed.unexpected_response_message(), Some("wrong shape"));

    let connection = TaskError::connection("offline", true);
    assert!(connection.is_connection());
    assert!(connection.is_timeout());
    assert!(matches!(&connection, TaskError::Connection { source, .. } if source == "offline"));

    let internal = TaskError::internal("encode", "invalid value");
    assert!(matches!(&internal, TaskError::Internal { source, .. } if source == "invalid value"));
    assert_eq!(TaskError::storage("get task", "x").storage_operation(), Some("get task"));
    assert_eq!(TaskError::not_found(3).not_found_id(), Some(3));
    assert_eq!(TaskError::incomplete("m").incomplete_capability(), Some("m"));
    assert_eq!(TaskError::client_configuration("timeout", "t").client_configuration_details(), Some(("timeout", "t")));
}

#[test]
fn sqlite_rows_and_schema() {
    assert!(schema_matches(SCHEMA));
    assert!(schema_matches("create table tasks(id integer primary key autoincrement,title text not null,completed integer not null check(completed in(0,1)));"));
    assert!(!schema_matches("CREATE TABLE tasks (id INTEGER PRIMARY KEY, title TEXT)"));
    let canonical: String = canonical_sql("A b;\tC").into_iter().collect();
    assert_eq!(canonical, "abc");
    assert_eq!((bool_integer(true), bool_integer(false)), (1, 0));
    assert_eq!(list_statement(TaskFilter { completed: Some(true) }).1, Some(1));
    assert_eq!(
        list_statement(TaskFilter { completed: None }).0,
        "SELECT id, title, completed FROM tasks ORDER BY id ASC"
    );

    let task = task_from_parts((2, String::from("Row"), 1), "get task").expect("task");
    assert_eq!((task.id(), task.completed()), (2, true));
    let error = task_from_parts((2, String::from("Row"), 2), "get task").expect_err("flag");
    assert!(matches!(&error, TaskError::Storage { operation, source } if operation == "get task" && source == "invalid completed value 2 for task 2"));
    let error = task_from_parts((2, String::from(" Row"), 0), "list tasks").expect_err("title");
    assert!(matches!(&error, TaskError::Storage { source, .. } if source == "title must not have leading or trailing whitespace"));
    assert!(matches!(delete_outcome(4, 0), Err(TaskError::NotFound { id: 4 })));
    assert!(delete_outcome(4, 1).is_ok());
}

#[test]
fn normalizing_twice_changes_nothing() {
    for raw in ["  Learn  REST ", "x", "\u{2003}wide space\u{2003}"] {
        let once = normalize_title(raw).expect("title");
        let twice = normalize_title(&once).expect("title");
        assert_eq!(once, twice);
        assert!(validate_title(&once).is_ok());
    }
}
