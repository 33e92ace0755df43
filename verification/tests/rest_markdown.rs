use task_manager::rest::domain::{TaskFilter, TaskPatch};
use task_manager::rest::error::TaskError;
use task_manager::rest::markdown::{parse_document, parse_positive_integer, serialize, Document};

const EMPTY: &str = "<!-- rest-task-api:v1 next-id=1 -->\n# Tasks\n\n";

fn parse_error(text: &[u8]) -> String {
    match parse_document(text.to_vec()) {
        Ok(_) => panic!("document should be rejected"),
        Err(message) => message,
    }
}

#[test]
fn an_empty_store_has_only_the_header() {
    let document = Document::empty();
    assert_eq!(serialize(&document), EMPTY);
    let parsed = parse_document(EMPTY.as_bytes().to_vec()).expect("parse");
    assert_eq!(parsed.next_id(), 1);
    assert!(parsed.tasks().is_empty());
}

#[test]
fn saved_documents_read_back_identically() {
    let mut document = Document::empty();
    document.create("Buy milk").expect("create");
    document.create("Write: report").expect("create");
    let patch = TaskPatch { title: None, completed: Some(true) };
    document.update(1, patch).expect("update");
    let text = serialize(&document);
    assert_eq!(
        text,
        "<!-- rest-task-api:v1 next-id=3 -->\n# Tasks\n\n- [x] 1: Buy milk\n- [ ] 2: Write: report\n"
    );
    let parsed = parse_document(text.as_bytes().to_vec()).expect("parse");
    assert_eq!(parsed.next_id(), 3);
    assert_eq!(parsed.tasks(), document.tasks());
    assert_eq!(serialize(&parsed), text);
}

#[test]
fn structural_damage_is_reported_not_repaired() {
    assert_eq!(parse_error(b""), "Markdown store is empty");
    assert_eq!(parse_error(&[0xff, b'\n']), "Markdown store is not valid UTF-8");
    assert_eq!(
        parse_error(b"<!-- rest-task-api:v1 next-id=1 -->\n# Tasks\n"),
        "Markdown store has an invalid header"
    );
    assert_eq!(
        parse_error(b"<!-- rest-task-api:v1 next-id=1 -->\n# Tasks\n\n- [ ] 1: A"),
        "Markdown store must end with one newline"
    );
    assert_eq!(
        parse_error(b"<!-- rest-task-api:v1 next-id=1 -->\n# Todo\n\n"),
        "Markdown store has an invalid header"
    );
    assert_eq!(
        parse_error(b"<!-- other next-id=1 -->\n# Tasks\n\n"),
        "Markdown store has invalid metadata"
    );
    assert_eq!(
        parse_error(b"<!-- rest-task-api:v2 next-id=1 -->\n# Tasks\n\n"),
        "unsupported Markdown store version \"2\""
    );
    assert_eq!(
        parse_error(b"<!-- rest-task-api:v1 next-id=01 -->\n# Tasks\n\n"),
        "Markdown store has invalid next-id"
    );
}

#[test]
fn rows_are_checked_one_by_one() {
    let header = "<!-- rest-task-api:v1 next-id=9 -->\n# Tasks\n\n";
    let cases = [
        ("* [ ] 1: A\n", "invalid checklist row on line 4"),
        ("- [ ] 1 A\n", "invalid checklist row on line 4"),
        ("- [ ] +1: A\n", "invalid task ID on line 4"),
        ("- [x] 2: A\n- [ ] 2: B\n", "task IDs must be positive, unique, and ordered"),
        ("- [ ] 1: A \n", "invalid title on line 4: title must not have leading or trailing whitespace"),
        ("- [ ] 1: A\n- [ ] 3: \u{7}\n", "invalid title on line 5: title must not contain control characters"),
    ];
    for (rows, message) in cases {
        let text = format!("{header}{rows}");
        assert_eq!(parse_error(text.as_bytes()), message, "{rows:?}");
    }
    let text = "<!-- rest-task-api:v1 next-id=2 -->\n# Tasks\n\n- [ ] 2: A\n";
    assert_eq!(parse_error(text.as_bytes()), "next-id must be greater than every task ID");
}

#[test]
fn positive_integers_are_canonical() {
    let digits: Vec<char> = "9223372036854775807".chars().collect();
    assert_eq!(parse_positive_integer(&digits, String::from("bad")), Ok(i64::MAX));
    for raw in ["0", "01", "+1", "", "9223372036854775808", "1a"] {
        let chars: Vec<char> = raw.chars().collect();
        assert_eq!(parse_positive_integer(&chars, String::from("bad")), Err(String::from("bad")), "{raw}");
    }
}

#[test]
fn document_operations_follow_the_repository_contract() {
    let mut document = Document::empty();
    let first = document.create("First").expect("create");
    let second = document.create("Second").expect("create");
    assert_eq!((first.id(), second.id()), (1, 2));
    assert_eq!(document.next_id(), 3);

    let updated = document
        .update(2, TaskPatch { title: Some(String::from("Renamed")), completed: Some(true) })
        .expect("update");
    assert_eq!((updated.title(), updated.completed()), ("Renamed", true));
    assert_eq!(document.get(2).expect("get").title(), "Renamed");

    let pending = document.list(TaskFilter { completed: Some(false) });
    assert_eq!(pending.len(), 1);
    assert_eq!(pending[0].id(), 1);
    assert_eq!(document.list(TaskFilter { completed: None }).len(), 2);

    document.delete(1).expect("delete");
    assert!(matches!(document.get(1), Err(TaskError::NotFound { id: 1 })));
    assert!(matches!(document.delete(1), Err(TaskError::NotFound { id: 1 })));
    assert!(matches!(
        document.update(5, TaskPatch { title: None, completed: Some(true) }),
        Err(TaskError::NotFound { id: 5 })
    ));
    let third = document.create("Third").expect("create");
    assert_eq!(third.id(), 3);
}

#[test]
fn repository_titles_must_already_be_normalized() {
    let mut document = Document::empty();
    let error = document.create(" padded ").expect_err("padded");
    assert_eq!(
        error.validation_details(),
        Some(("title", "title must not have leading or trailing whitespace"))
    );
    assert_eq!(document.next_id(), 1);
    document.create("Kept").expect("create");
    let error = document
        .update(1, TaskPatch { title: Some(String::new()), completed: None })
        .expect_err("empty");
    assert_eq!(
        error.validation_details(),
        Some(("title", "title must contain between 1 and 120 characters"))
    );
    assert_eq!(document.get(1).expect("get").title(), "Kept");
}

#[test]
fn listings_ascend_and_partition_by_completion() {
    let mut document = Document::empty();
    for title in ["a", "b", "c", "d"] {
        document.create(title).expect("create");
    }
    document.update(3, TaskPatch { title: None, completed: Some(true) }).expect("update");
    document.update(1, TaskPatch { title: None, completed: Some(true) }).expect("update");
    let all = document.list(TaskFilter { completed: None });
    let ids: Vec<i64> = all.iter().map(|t| t.id()).collect();
    assert_eq!(ids, vec![1, 2, 3, 4]);
    let done: Vec<i64> = document.list(TaskFilter { completed: Some(true) }).iter().map(|t| t.id()).collect();
    let pending: Vec<i64> = document.list(TaskFilter { completed: Some(false) }).iter().map(|t| t.id()).collect();
    assert_eq!(done, vec![1, 3]);
    assert_eq!(pending, vec![2, 4]);
    assert_eq!(done.len() + pending.len(), all.len());
}

#[test]
fn deleted_ids_stay_retired() {
    let mut document = Document::empty();
    let first = document.create("first").expect("create");
    document.delete(first.id()).expect("delete");
    assert!(document.get(first.id()).is_err());
    let second = document.create("second").expect("create");
    assert_ne!(second.id(), first.id());
    assert_eq!(document.next_id(), 3);
    let text = serialize(&document);
    assert_eq!(text, "<!-- rest-task-api:v1 next-id=3 -->\n# Tasks\n\n- [ ] 2: second\n");
}

#[test]
fn accepted_files_are_canonical() {
    let text = "<!-- rest-task-api:v1 next-id=12 -->\n# Tasks\n\n- [x] 3: Plan: phase 1\n- [ ] 11: Ship \u{2713}\n";
    let document = parse_document(text.as_bytes().to_vec()).expect("parse");
    assert_eq!(serialize(&document), text);
}
