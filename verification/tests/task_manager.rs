use task_manager::cli::{execute, format_task, Command};
use task_manager::domain::{normalize_title, Task, TaskError, TaskId, TaskManager, TaskStore};
use task_manager::storage::{parent_directory, InMemoryTaskStore, JsonFileTaskStore};

fn assert_store_contract(mut store: impl TaskStore) {
    let first = store.add("First").expect("first add");
    let second = store.add("Second").expect("second add");
    assert_eq!((first.id().get(), second.id().get()), (1, 2));
    assert_eq!(store.tasks().len(), 2);

    let completed = store.complete(first.id()).expect("complete");
    assert!(completed.is_done());
    let removed = store.remove(second.id()).expect("remove");
    assert_eq!(removed.title(), "Second");

    assert!(matches!(
        store.complete(TaskId::new(999).expect("id")),
        Err(TaskError::NotFound(_))
    ));
}

#[test]
fn task_preserves_invariants_and_completion_state() {
    let id = TaskId::new(1).expect("positive id");
    let mut task = Task::new(id, "  Learn Rust  ").expect("valid title");
    assert_eq!(task.title(), "Learn Rust");
    assert!(task.mark_done());
    assert!(!task.mark_done());
    assert!(task.is_done());
}

#[test]
fn manager_filters_without_changing_storage() {
    let mut manager = TaskManager::new(InMemoryTaskStore::new());
    let first = manager.add("Pending").expect("add");
    let second = manager.add("Done").expect("add");
    manager.complete(second.id()).expect("complete");

    assert_eq!(manager.list(false), vec![&first]);
    assert_eq!(manager.list(true).len(), 2);
}

#[test]
fn rejects_duplicate_ids_and_inconsistent_next_id() {
    let first = Task::new(TaskId::new(1).expect("id"), "First").expect("task");
    let duplicate = first.clone();
    assert!(InMemoryTaskStore::from_parts(vec![first, duplicate], 2).is_err());

    let task = Task::new(TaskId::new(3).expect("id"), "Third").expect("task");
    assert!(InMemoryTaskStore::from_parts(vec![task], 3).is_err());
}

#[test]
fn bare_storage_filename_uses_current_directory() {
    assert_eq!(parent_directory("tasks.json"), ".");
    assert_eq!(parent_directory("data/tasks.json"), "data");
}

#[test]
fn in_memory_store_satisfies_contract() {
    assert_store_contract(InMemoryTaskStore::new());
}

#[test]
fn command_execution_is_testable_without_a_process() {
    let mut manager = TaskManager::new(InMemoryTaskStore::new());
    let added = execute(
        &mut manager,
        Command::Add {
            title: String::from("From CLI"),
        },
    )
    .expect("add");
    assert_eq!(added, "Added task #1: From CLI");

    let listing = execute(
        &mut manager,
        Command::List {
            pending_only: false,
        },
    )
    .expect("list");
    assert_eq!(listing, "[ ] #1 From CLI");

    let completed = execute(&mut manager, Command::Complete { id: 1 }).expect("complete");
    assert_eq!(completed, "Completed task #1: From CLI");

    let pending = execute(&mut manager, Command::List { pending_only: true }).expect("list");
    assert_eq!(pending, "No tasks yet.");
}

#[test]
fn task_id_rejects_zero() {
    assert!(matches!(TaskId::new(0), Err(TaskError::InvalidId(0))));
    assert_eq!(TaskId::new(7).expect("id").get(), 7);
}

#[test]
fn blank_titles_are_rejected_everywhere() {
    assert!(matches!(normalize_title(" \t\n "), Err(TaskError::InvalidTitle)));
    assert_eq!(normalize_title("\u{3000}Tea\u{a0}").expect("title"), "Tea");
    let id = TaskId::new(1).expect("id");
    assert!(matches!(Task::new(id, ""), Err(TaskError::InvalidTitle)));
    let mut manager = TaskManager::new(InMemoryTaskStore::new());
    assert!(matches!(manager.add("   "), Err(TaskError::InvalidTitle)));
    assert!(manager.list(true).is_empty());
}

#[test]
fn ids_are_never_reused_after_removal() {
    let mut store = InMemoryTaskStore::new();
    let first = store.add("One").expect("add");
    store.remove(first.id()).expect("remove");
    let second = store.add("Two").expect("add");
    assert_eq!(second.id().get(), 2);
    assert_eq!(store.next_id(), 3);
}

#[test]
fn completing_twice_keeps_the_task_done() {
    let mut store = InMemoryTaskStore::new();
    let task = store.add("Once").expect("add");
    assert!(store.complete(task.id()).expect("complete").is_done());
    assert!(store.complete(task.id()).expect("complete again").is_done());
    assert_eq!(store.tasks().len(), 1);
}

#[test]
fn from_parts_accepts_consistent_data() {
    let task = Task::new(TaskId::new(2).expect("id"), "Two").expect("task");
    let store = InMemoryTaskStore::from_parts(vec![task], 3).expect("store");
    assert_eq!(store.next_id(), 3);
    assert_eq!(store.tasks().len(), 1);
}

#[test]
fn formatting_shows_status_id_and_title() {
    let mut task = Task::new(TaskId::new(4).expect("id"), "Walk").expect("task");
    assert_eq!(format_task(&task), "[ ] #4 Walk");
    task.mark_done();
    assert_eq!(format_task(&task), "[x] #4 Walk");
}

#[test]
fn missing_ids_are_reported_by_execute() {
    let mut manager = TaskManager::new(InMemoryTaskStore::new());
    let result = execute(&mut manager, Command::Remove { id: 3 });
    assert!(matches!(result, Err(TaskError::NotFound(_))));
    let result = execute(&mut manager, Command::Complete { id: 0 });
    assert!(matches!(result, Err(TaskError::InvalidId(0))));
}

#[test]
fn error_messages_match_their_display_text() {
    assert_eq!(TaskError::InvalidTitle.message(), "task title must not be empty");
    assert_eq!(TaskError::InvalidId(0).message(), "task id must be positive, got 0");
    let id = TaskId::new(12).expect("id");
    assert_eq!(TaskError::NotFound(id).message(), "no task with id 12");
    assert_eq!(
        TaskError::InvalidStorage(String::from("bad")).message(),
        "invalid task storage: bad"
    );
}

#[test]
fn file_store_commits_only_a_saved_copy() {
    let mut store = JsonFileTaskStore::empty(String::from("tasks.json"));
    assert_eq!(store.path(), "tasks.json");
    let mut candidate = store.state().clone();
    let task = candidate.add("Staged").expect("add");
    assert_eq!(task.id().get(), 1);
    assert!(store.tasks().is_empty());

    let failed = TaskError::Io { path: String::from("tasks.json"), message: String::from("disk full") };
    let outcome = store.commit(candidate.clone(), Err(failed));
    assert!(matches!(outcome, Err(TaskError::Io { ref message, .. }) if message == "disk full"));
    assert!(store.tasks().is_empty());
    assert_eq!(store.state().next_id(), 1);

    store.commit(candidate, Ok(())).expect("commit");
    assert_eq!(store.tasks().len(), 1);
    assert_eq!(store.state().next_id(), 2);
    assert_eq!(store.path(), "tasks.json");
}

#[test]
fn file_store_checks_version_and_invariants() {
    let task = Task::new(TaskId::new(1).expect("id"), "One").expect("task");
    let error = JsonFileTaskStore::from_file(String::from("f.json"), 2, 2, vec![task.clone()]).err().expect("version");
    assert!(matches!(&error, TaskError::InvalidStorage(m) if m == "unsupported version 2; expected 1"));
    let error = JsonFileTaskStore::from_file(String::from("f.json"), 1, 1, vec![task.clone()]).err().expect("next id");
    assert!(matches!(&error, TaskError::InvalidStorage(m) if m == "next_id 1 must exceed maximum task id 1"));
    let store = JsonFileTaskStore::from_file(String::from("f.json"), 1, 2, vec![task]).expect("store");
    assert_eq!(store.tasks().len(), 1);
}
