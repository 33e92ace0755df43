use task_manager::rest::cli::{
    parse_positive_id, render_error, reply_text, request_for, transport_failure, usage,
    validate_command, ClientReply, ClientRequest, Command, EXIT_API, EXIT_CONNECTION, EXIT_USAGE,
    EXIT_UNEXPECTED_RESPONSE, USAGE,
};
use task_manager::rest::domain::{Task, TaskFilter};
use task_manager::rest::error::TaskError;

#[test]
fn commands_are_normalized_before_sending() {
    let mut command = Command::Add { title: String::from("  Plan  ") };
    validate_command(&mut command).expect("valid");
    assert_eq!(command, Command::Add { title: String::from("Plan") });

    let mut command = Command::Update { id: 2, title: Some(String::from(" New ")), completed: None };
    validate_command(&mut command).expect("valid");
    assert_eq!(command, Command::Update { id: 2, title: Some(String::from("New")), completed: None });

    let mut command = Command::Update { id: 2, title: None, completed: None };
    let error = validate_command(&mut command).expect_err("empty patch");
    assert_eq!(error.validation_details(), Some(("update", "update must include title or completed")));

    let mut command = Command::Show { id: 0 };
    assert!(validate_command(&mut command).is_err());
    let mut command = Command::List { completed: Some(true) };
    validate_command(&mut command).expect("list");
    assert_eq!(command, Command::List { completed: Some(true) });
}

#[test]
fn each_command_makes_one_call() {
    assert_eq!(request_for(&Command::Show { id: 3 }), ClientRequest::Get { id: 3 });
    assert_eq!(request_for(&Command::Remove { id: 3 }), ClientRequest::Delete { id: 3 });
    assert_eq!(
        request_for(&Command::List { completed: None }),
        ClientRequest::List { filter: TaskFilter { completed: None } }
    );
    match request_for(&Command::Complete { id: 4 }) {
        ClientRequest::Update { id, patch } => {
            assert_eq!(id, 4);
            assert_eq!(patch.title, None);
            assert_eq!(patch.completed, Some(true));
        },
        other => panic!("unexpected request {other:?}"),
    }
    match request_for(&Command::Add { title: String::from("T") }) {
        ClientRequest::Create { title } => assert_eq!(title, "T"),
        other => panic!("unexpected request {other:?}"),
    }
}

#[test]
fn successful_output_is_compact_json() {
    let task = Task::from_parts(1, "Plan", false).expect("task");
    assert_eq!(reply_text(&ClientReply::Task(task)), r#"{"id":1,"title":"Plan","completed":false}"#);
    assert_eq!(reply_text(&ClientReply::Tasks(Vec::new())), "[]");
    assert_eq!(reply_text(&ClientReply::Deleted(5)), r#"{"deleted":5}"#);
}

#[test]
fn failures_map_to_stable_exit_codes() {
    let api = TaskError::api(404, "not_found", "task 9 was not found", None);
    assert_eq!(render_error(&api), (EXIT_API, String::from("api: 404 not_found: task 9 was not found")));
    let malformed = TaskError::unexpected_response("wrong shape");
    assert_eq!(render_error(&malformed), (EXIT_UNEXPECTED_RESPONSE, String::from("malformed-response: wrong shape")));
    let timeout = TaskError::connection("deadline", true);
    assert_eq!(render_error(&timeout), (EXIT_CONNECTION, String::from("connection: timeout: request timed out")));
    let offline = TaskError::connection("refused", false);
    assert_eq!(render_error(&offline), (EXIT_CONNECTION, String::from("connection: request failed")));
    let config = TaskError::client_configuration("base-url", "bad");
    assert_eq!(render_error(&config), (EXIT_USAGE, String::from(USAGE)));
    let validation = TaskError::validation("title", "bad");
    assert_eq!(render_error(&validation).0, EXIT_USAGE);
    let internal = TaskError::internal("render", "broken");
    assert_eq!(render_error(&internal), (EXIT_CONNECTION, String::from("transport: request failed")));
    assert_eq!(usage(), (2, String::from(USAGE)));
    assert_eq!(transport_failure(), (5, String::from("transport: request failed")));
}

#[test]
fn ids_on_the_command_line_are_positive() {
    assert_eq!(parse_positive_id("12"), Ok(12));
    for raw in ["0", "-1", "+1", "x", "", "99999999999999999999"] {
        assert_eq!(parse_positive_id(raw), Err(String::from("ID must be a positive integer")), "{raw}");
    }
}
