//! The application service: input is validated and normalized with the
//! domain rules, then handed to an injected [`TaskRepository`].

use vstd::prelude::*;

use crate::rest::domain::{
    normalize_filter, normalize_patch, normalize_title, patch_outcome, patch_title, title_outcome,
    validate_id, Task, TaskFilter, TaskPatch,
};
use crate::rest::error::{is_validation, TaskError};

verus! {

/// The persistence port each storage backend implements. Its methods take
/// domain values that the service has already validated. Nothing is assumed
/// of a backend's answers: the service's contracts say which call it makes,
/// and that what it returns is that call's answer.
pub trait TaskRepository {
    /// Persists a new, incomplete task with the given normalized title.
    fn create(&self, title: &str) -> Result<Task, TaskError>;

    /// Returns all tasks matching `filter`, ordered by ascending ID.
    fn list(&self, filter: TaskFilter) -> Result<Vec<Task>, TaskError>;

    /// Returns one task, or a not-found error if the ID is absent.
    fn get(&self, id: i64) -> Result<Task, TaskError>;

    /// Applies a normalized patch to one task and returns the updated value.
    fn update(&self, id: i64, patch: TaskPatch) -> Result<Task, TaskError>;

    /// Deletes one task, or reports a not-found error if it is absent.
    fn delete(&self, id: i64) -> Result<(), TaskError>;
}

/// Synchronous application service: validation, then delegation to the
/// repository.
#[derive(Clone)]
pub struct TaskService<R> {
    repository: R,
}

impl<R: TaskRepository> TaskService<R> {
    /// The repository the service delegates to.
    pub closed spec fn backend(&self) -> R {
        self.repository
    }

    /// Builds a service over an injected repository.
    pub fn new(repository: R) -> (r: TaskService<R>)
        ensures
            r.backend() == repository,
    {
        TaskService { repository }
    }

    /// Borrows the injected repository.
    pub fn repository(&self) -> (r: &R)
        ensures
            *r == self.backend(),
    {
        &self.repository
    }

    /// Creates a task: a rejected title is its validation error and reaches
    /// no backend; an accepted one is created under its normalized form.
    pub fn create(&self, title: &str) -> (r: Result<Task, TaskError>)
        ensures
            title_outcome(title@) matches Err(m) ==> (r matches Err(e) && is_validation(e, "title"@, m)),
            title_outcome(title@) matches Ok(t) ==> exists|s: &str|
                s@ == t && #[trigger] call_ensures(R::create, (&self.backend(), s), r),
    {
        let title = normalize_title(title)?;
        let normalized = title.as_str();
        let r = self.repository.create(normalized);
        assert(call_ensures(R::create, (&self.backend(), normalized), r));
        r
    }

    /// Lists the tasks matching `filter`, which passes to the backend as
    /// it is.
    pub fn list(&self, filter: TaskFilter) -> (r: Result<Vec<Task>, TaskError>)
        ensures
            call_ensures(R::list, (&self.backend(), filter), r),
    {
        self.repository.list(normalize_filter(filter))
    }

    /// Reads one task: a non-positive ID is rejected before the backend sees
    /// it.
    pub fn get(&self, id: i64) -> (r: Result<Task, TaskError>)
        ensures
            id <= 0 ==> (r matches Err(e) && is_validation(e, "id"@, "task ID must be a positive integer"@)),
            id > 0 ==> call_ensures(R::get, (&self.backend(), id), r),
    {
        validate_id(id)?;
        self.repository.get(id)
    }

    /// Updates one task: the ID is checked first, then the patch; only a
    /// valid, normalized patch reaches the backend.
    pub fn update(&self, id: i64, patch: TaskPatch) -> (r: Result<Task, TaskError>)
        ensures
            id <= 0 ==> (r matches Err(e) && is_validation(e, "id"@, "task ID must be a positive integer"@)),
            id > 0 ==> match patch_outcome(patch_title(patch), patch.completed) {
                Err((f, m)) => r matches Err(e) && is_validation(e, f, m),
                Ok(t) => exists|p: TaskPatch|
                    patch_title(p) == t && p.completed == patch.completed && #[trigger] call_ensures(
                        R::update,
                        (&self.backend(), id, p),
                        r,
                    ),
            },
    {
        validate_id(id)?;
        let patch = normalize_patch(patch)?;
        let ghost normalized = patch;
        let r = self.repository.update(id, patch);
        assert(call_ensures(R::update, (&self.backend(), id, normalized), r));
        r
    }

    /// Deletes one task: a non-positive ID is rejected before the backend
    /// sees it.
    pub fn delete(&self, id: i64) -> (r: Result<(), TaskError>)
        ensures
            id <= 0 ==> (r matches Err(e) && is_validation(e, "id"@, "task ID must be a positive integer"@)),
            id > 0 ==> call_ensures(R::delete, (&self.backend(), id), r),
    {
        validate_id(id)?;
        self.repository.delete(id)
    }
}

} // verus!
