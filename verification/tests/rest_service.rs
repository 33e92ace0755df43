use std::cell::RefCell;

use task_manager::rest::domain::{Task, TaskFilter, TaskPatch};
use task_manager::rest::error::TaskError;
use task_manager::rest::service::{TaskRepository, TaskService};

#[derive(Default)]
struct Recorder {
    calls: RefCell<Vec<String>>,
}

impl TaskRepository for Recorder {
    fn create(&self, title: &str) -> Result<Task, TaskError> {
        self.calls.borrow_mut().push(format!("create {title}"));
        Task::from_parts(1, title, false)
    }

    fn list(&self, filter: TaskFilter) -> Result<Vec<Task>, TaskError> {
        self.calls.borrow_mut().push(format!("list {:?}", filter.completed));
        Ok(Vec::new())
    }

    fn get(&self, id: i64) -> Result<Task, TaskError> {
        self.calls.borrow_mut().push(format!("get {id}"));
        Err(TaskError::not_found(id))
    }

    fn update(&self, id: i64, patch: TaskPatch) -> Result<Task, TaskError> {
        self.calls.borrow_mut().push(format!("update {id} {:?} {:?}", patch.title, patch.completed));
        Task::from_parts(id, patch.title.as_deref().unwrap_or("kept"), patch.completed.unwrap_or(false))
    }

    fn delete(&self, id: i64) -> Result<(), TaskError> {
        self.calls.borrow_mut().push(format!("delete {id}"));
        Ok(())
    }
}

fn calls(service: &TaskService<Recorder>) -> Vec<String> {
    service.repository().calls.borrow().clone()
}

#[test]
fn the_service_validates_before_delegating() {
    let service = TaskService::new(Recorder::default());

    let task = service.create("  Learn Rust  ").expect("created");
    assert_eq!(task.title(), "Learn Rust");
    let error = service.create("   ").expect_err("blank");
    assert_eq!(error.validation_details(), Some(("title", "title must contain between 1 and 120 characters")));

    assert_eq!(service.get(0).expect_err("zero").validation_details(), Some(("id", "task ID must be a positive integer")));
    assert!(matches!(service.get(4), Err(TaskError::NotFound { id: 4 })));

    let empty = TaskPatch { title: None, completed: None };
    let error = service.update(2, empty).expect_err("empty patch");
    assert_eq!(error.validation_details(), Some(("update", "update must include title or completed")));
    let error = service.update(-1, TaskPatch { title: Some(String::from("x")), completed: None }).expect_err("id first");
    assert_eq!(error.validation_details(), Some(("id", "task ID must be a positive integer")));
    let task = service.update(2, TaskPatch { title: Some(String::from(" New ")), completed: Some(true) }).expect("updated");
    assert_eq!((task.title(), task.completed()), ("New", true));

    assert!(service.delete(0).is_err());
    service.delete(3).expect("deleted");
    service.list(TaskFilter { completed: Some(true) }).expect("listed");

    assert_eq!(
        calls(&service),
        vec![
            "create Learn Rust",
            "get 4",
            "update 2 Some(\"New\") Some(true)",
            "delete 3",
            "list Some(true)",
        ]
    );
}
