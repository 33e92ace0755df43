//! Domain types and storage-independent task operations.
//!
//! Identifiers are positive, titles are non-empty after trimming, and
//! completion is a one-way transition. Persistence is abstracted behind
//! [`TaskStore`], so [`TaskManager`] stays storage-agnostic.

use vstd::prelude::*;

use crate::text::{
    chars_of, decimal, decimal_string, lemma_trim_shape, string_from_chars, substring, trim,
    trim_bounds,
};

verus! {

/// A task identifier that is guaranteed to be nonzero.
#[derive(Debug, Clone, Copy, PartialEq, Eq, Hash)]
pub struct TaskId(u64);

impl View for TaskId {
    type V = u64;

    closed spec fn view(&self) -> u64 {
        self.0
    }
}

impl TaskId {
    #[verifier::type_invariant]
    closed spec fn positive(self) -> bool {
        self.0 != 0
    }

    /// Creates a `TaskId`, returning [`TaskError::InvalidId`] when `value` is 0.
    pub fn new(value: u64) -> (r: Result<TaskId, TaskError>)
        ensures
            value == 0 ==> r == Err::<TaskId, TaskError>(TaskError::InvalidId(value)),
            value != 0 ==> (r matches Ok(id) && id@ == value),
    {
        if value == 0 {
            Err(TaskError::InvalidId(value))
        } else {
            Ok(TaskId(value))
        }
    }

    /// Returns the underlying identifier value, which is never zero.
    pub fn get(self) -> (r: u64)
        ensures
            r == self@,
            r != 0,
    {
        proof {
            use_type_invariant(&self);
        }
        self.0
    }

    /// Compares two identifiers.
    pub fn same(self, other: TaskId) -> (r: bool)
        ensures
            r == (self@ == other@),
    {
        self.0 == other.0
    }
}

/// The abstract value of a task: its identifier, title and completion flag.
pub ghost struct TaskView {
    pub id: u64,
    pub title: Seq<char>,
    pub done: bool,
}

/// A title is normalized when it is non-empty and equal to its own trim.
pub open spec fn normalized_title(title: Seq<char>) -> bool {
    title.len() > 0 && trim(title) == title
}

/// A task with a validated, non-empty title and a one-way `done` flag.
#[derive(Debug, PartialEq, Eq)]
pub struct Task {
    id: TaskId,
    title: String,
    done: bool,
}

impl View for Task {
    type V = TaskView;

    closed spec fn view(&self) -> TaskView {
        TaskView { id: self.id@, title: self.title@, done: self.done }
    }
}

impl Clone for Task {
    fn clone(&self) -> (r: Task)
        ensures
            r@ == self@,
    {
        proof {
            use_type_invariant(self);
        }
        Task { id: self.id, title: self.title.clone(), done: self.done }
    }
}

impl Task {
    #[verifier::type_invariant]
    closed spec fn valid(self) -> bool {
        self.id@ != 0 && normalized_title(self.title@)
    }

    /// Builds a new, incomplete task, trimming `title` and rejecting it when
    /// empty via [`TaskError::InvalidTitle`].
    pub fn new(id: TaskId, title: &str) -> (r: Result<Task, TaskError>)
        ensures
            trim(title@).len() == 0 <==> r is Err,
            r matches Err(e) ==> e == TaskError::InvalidTitle,
            r matches Ok(t) ==> t@ == (TaskView { id: id@, title: trim(title@), done: false }),
    {
        proof {
            use_type_invariant(&id);
        }
        let title = normalize_title(title)?;
        proof {
            lemma_trim_shape(title@);
        }
        Ok(Task { id, title, done: false })
    }

    /// Re-checks the title invariant, consuming and returning `self`; a valid
    /// task comes back unchanged.
    pub fn validate(self) -> (r: Result<Task, TaskError>)
        ensures
            r matches Ok(t) && t@ == self@,
    {
        proof {
            use_type_invariant(&self);
        }
        let title = normalize_title(self.title.as_str())?;
        Ok(Task { id: self.id, title, done: self.done })
    }

    /// Builds a task from stored parts, normalizing the title as
    /// [`Task::validate`] does for data read back from storage.
    pub fn from_stored(id: TaskId, title: &str, done: bool) -> (r: Result<Task, TaskError>)
        ensures
            trim(title@).len() == 0 <==> r is Err,
            r matches Err(e) ==> e == TaskError::InvalidTitle,
            r matches Ok(t) ==> t@ == (TaskView { id: id@, title: trim(title@), done }),
    {
        let task = Task::new(id, title)?;
        proof {
            use_type_invariant(&task);
        }
        Ok(Task { done, ..task })
    }

    /// The task's positive identifier.
    pub fn id(&self) -> (r: TaskId)
        ensures
            r@ == self@.id,
            r@ != 0,
    {
        proof {
            use_type_invariant(self);
        }
        self.id
    }

    /// Returns the trimmed title.
    pub fn title(&self) -> (r: &str)
        ensures
            r@ == self@.title,
            normalized_title(r@),
    {
        proof {
            use_type_invariant(self);
        }
        self.title.as_str()
    }

    /// Reports whether the task has been completed.
    pub fn is_done(&self) -> (r: bool)
        ensures
            r == self@.done,
    {
        self.done
    }

    /// Marks the task done, returning `true` only on the first transition so
    /// callers can detect a redundant completion.
    pub fn mark_done(&mut self) -> (r: bool)
        ensures
            r == !old(self)@.done,
            final(self)@ == (TaskView { done: true, ..old(self)@ }),
    {
        proof {
            use_type_invariant(&*self);
        }
        if self.done {
            false
        } else {
            self.done = true;
            true
        }
    }
}

/// Trims `title`, rejecting it when nothing is left.
pub fn normalize_title(title: &str) -> (r: Result<String, TaskError>)
    ensures
        trim(title@).len() == 0 <==> r is Err,
        r matches Err(e) ==> e == TaskError::InvalidTitle,
        r matches Ok(t) ==> t@ == trim(title@) && normalized_title(t@),
{
    let chars = chars_of(title);
    let (start, end) = trim_bounds(chars.as_slice());
    if start == end {
        Err(TaskError::InvalidTitle)
    } else {
        let t = substring(chars.as_slice(), start, end);
        proof {
            lemma_trim_shape(title@);
        }
        Ok(t)
    }
}

/// Errors produced by the task domain and its storage backends.
#[derive(Debug)]
pub enum TaskError {
    InvalidTitle,
    InvalidId(u64),
    NotFound(TaskId),
    InvalidStorage(String),
    /// A file could not be accessed; `message` describes the I/O failure.
    Io { path: String, message: String },
    /// A file could not be decoded; `message` describes the JSON failure.
    Json { path: String, message: String },
}

/// The human-readable text of an error.
pub open spec fn error_text(e: TaskError) -> Seq<char> {
    match e {
        TaskError::InvalidTitle => "task title must not be empty"@,
        TaskError::InvalidId(n) => "task id must be positive, got "@ + decimal(n as nat),
        TaskError::NotFound(id) => "no task with id "@ + decimal(id@ as nat),
        TaskError::InvalidStorage(m) => "invalid task storage: "@ + m@,
        TaskError::Io { path, message } => "cannot access "@ + path@ + ": "@ + message@,
        TaskError::Json { path, message } => "cannot decode "@ + path@ + ": "@ + message@,
    }
}

impl TaskError {
    /// The human-readable text of this error.
    pub fn message(&self) -> (r: String)
        ensures
            r@ == error_text(*self),
    {
        match self {
            TaskError::InvalidTitle => String::from_str("task title must not be empty"),
            TaskError::InvalidId(n) => {
                let mut m = String::from_str("task id must be positive, got ");
                m.append(decimal_string(*n).as_str());
                m
            },
            TaskError::NotFound(id) => {
                let mut m = String::from_str("no task with id ");
                m.append(decimal_string(id.get()).as_str());
                m
            },
            TaskError::InvalidStorage(s) => {
                let mut m = String::from_str("invalid task storage: ");
                m.append(s.as_str());
                m
            },
            TaskError::Io { path, message } => {
                let mut m = String::from_str("cannot access ");
                m.append(path.as_str());
                m.append(": ");
                m.append(message.as_str());
                m
            },
            TaskError::Json { path, message } => {
                let mut m = String::from_str("cannot decode ");
                m.append(path.as_str());
                m.append(": ");
                m.append(message.as_str());
                m
            },
        }
    }
}

} // verus!

verus! {

/// The abstract values of a sequence of tasks.
pub open spec fn views(tasks: Seq<Task>) -> Seq<TaskView> {
    tasks.map_values(|t: Task| t@)
}

/// Appending a task appends its view.
pub proof fn lemma_views_push(s: Seq<Task>, t: Task)
    ensures
        views(s.push(t)) == views(s).push(t@),
{
    assert(views(s.push(t)) =~= views(s).push(t@));
}

/// The views of a prefix one element longer.
pub proof fn lemma_views_prefix(s: Seq<Task>, i: int)
    requires
        0 <= i < s.len(),
    ensures
        views(s.subrange(0, i + 1)) == views(s.subrange(0, i)).push(s[i]@),
{
    assert(views(s.subrange(0, i + 1)) =~= views(s.subrange(0, i)).push(s[i]@));
}

/// Whether some task in `tasks` carries `id`.
pub open spec fn has_id(tasks: Seq<TaskView>, id: u64) -> bool {
    exists|i: int| 0 <= i < tasks.len() && #[trigger] tasks[i].id == id
}

/// The position of the task carrying `id` (meaningful when [`has_id`] holds).
pub open spec fn position_of(tasks: Seq<TaskView>, id: u64) -> int {
    choose|i: int| 0 <= i < tasks.len() && #[trigger] tasks[i].id == id
}

/// No two tasks share an identifier.
pub open spec fn ids_unique(tasks: Seq<TaskView>) -> bool {
    forall|i: int, j: int|
        0 <= i < tasks.len() && 0 <= j < tasks.len() && i != j ==> #[trigger] tasks[i].id
            != #[trigger] tasks[j].id
}

/// `task` after completion: the same task with `done` set.
pub open spec fn completed(task: TaskView) -> TaskView {
    TaskView { done: true, ..task }
}

/// Completion is a one-way transition: a completed task is done, and
/// completing it again changes nothing else.
pub proof fn law_completion_idempotent(task: TaskView)
    ensures
        completed(task).done,
        completed(completed(task)) == completed(task),
        completed(task).id == task.id && completed(task).title == task.title,
{
}

/// Persistence boundary for tasks.
///
/// Implementors own identifier allocation and any persistence behavior; the
/// domain only requires these four operations. `add`, `complete`, and `remove`
/// return the affected [`Task`] so callers can report what changed.
pub trait TaskStore: Sized {
    /// The tasks currently stored, in storage order.
    spec fn task_views(&self) -> Seq<TaskView>;

    /// Whether adding a task titled `title` succeeds on this store.
    spec fn add_ok(&self, title: Seq<char>) -> bool;

    /// The id this store gives the next task it adds.
    spec fn next_task_id(&self) -> u64;

    /// Whether completing the task with id `id` succeeds on this store.
    spec fn complete_ok(&self, id: u64) -> bool;

    /// Whether removing the task with id `id` succeeds on this store.
    spec fn remove_ok(&self, id: u64) -> bool;

    /// Whether `r`, leaving the store as `after`, is what adding a task
    /// titled `title` to this store gives.
    spec fn adds(&self, title: Seq<char>, after: Self, r: Result<Task, TaskError>) -> bool;

    /// Whether `r`, leaving the store as `after`, is what completing the
    /// task with id `id` gives.
    spec fn completes(&self, id: u64, after: Self, r: Result<Task, TaskError>) -> bool;

    /// Whether `r`, leaving the store as `after`, is what removing the task
    /// with id `id` gives.
    spec fn removes(&self, id: u64, after: Self, r: Result<Task, TaskError>) -> bool;

    /// Returns all stored tasks, including completed ones.
    fn tasks(&self) -> (r: &[Task])
        ensures
            views(r@) == self.task_views(),
    ;

    /// Adds a task with a freshly allocated id.
    fn add(&mut self, title: &str) -> (r: Result<Task, TaskError>)
        ensures
            trim(title@).len() == 0 ==> r == Err::<Task, TaskError>(TaskError::InvalidTitle),
            r is Ok <==> old(self).add_ok(title@),
            old(self).adds(title@, *final(self), r),
            r matches Ok(t) ==> {
                &&& t@.id == old(self).next_task_id()
                &&& t@.title == trim(title@)
                &&& !t@.done
                &&& !has_id(old(self).task_views(), t@.id)
                &&& final(self).task_views() == old(self).task_views().push(t@)
            },
            r is Err ==> final(self).task_views() == old(self).task_views(),
    ;

    /// Marks the task with `id` done, erroring with [`TaskError::NotFound`] if absent.
    fn complete(&mut self, id: TaskId) -> (r: Result<Task, TaskError>)
        ensures
            !has_id(old(self).task_views(), id@) ==> r == Err::<Task, TaskError>(
                TaskError::NotFound(id),
            ),
            r is Ok <==> old(self).complete_ok(id@),
            old(self).completes(id@, *final(self), r),
            r matches Ok(t) ==> {
                let i = position_of(old(self).task_views(), id@);
                &&& has_id(old(self).task_views(), id@)
                &&& t@ == completed(old(self).task_views()[i])
                &&& final(self).task_views() == old(self).task_views().update(i, t@)
            },
            r is Err ==> final(self).task_views() == old(self).task_views(),
    ;

    /// Removes and returns the task with `id`, erroring with [`TaskError::NotFound`] if absent.
    fn remove(&mut self, id: TaskId) -> (r: Result<Task, TaskError>)
        ensures
            !has_id(old(self).task_views(), id@) ==> r == Err::<Task, TaskError>(
                TaskError::NotFound(id),
            ),
            r is Ok <==> old(self).remove_ok(id@),
            old(self).removes(id@, *final(self), r),
            r matches Ok(t) ==> {
                let i = position_of(old(self).task_views(), id@);
                &&& has_id(old(self).task_views(), id@)
                &&& t@ == old(self).task_views()[i]
                &&& final(self).task_views() == old(self).task_views().remove(i)
            },
            r is Err ==> final(self).task_views() == old(self).task_views(),
    ;
}

} // verus!

verus! {

/// The abstract values of a sequence of borrowed tasks.
pub open spec fn ref_views(tasks: Seq<&Task>) -> Seq<TaskView> {
    tasks.map_values(|t: &Task| t@)
}

/// The tasks a listing shows: all of them, or only the pending ones.
pub open spec fn listed(tasks: Seq<TaskView>, include_done: bool) -> Seq<TaskView> {
    tasks.filter(|t: TaskView| include_done || !t.done)
}

/// Listing with completed tasks included shows every task; listing without
/// them shows exactly the pending ones, so the two listings differ by the
/// completed tasks only.
pub proof fn law_listing(tasks: Seq<TaskView>)
    ensures
        listed(tasks, true) == tasks,
        forall|i: int| 0 <= i < listed(tasks, false).len() ==> !(#[trigger] listed(tasks, false)[i]).done,
        listed(tasks, false).len() <= tasks.len(),
    decreases tasks.len(),
{
    reveal(Seq::filter);
    if tasks.len() > 0 {
        law_listing(tasks.drop_last());
        assert(tasks.drop_last().push(tasks.last()) =~= tasks);
        let f = listed(tasks.drop_last(), false);
        assert forall|i: int| 0 <= i < listed(tasks, false).len() implies !(#[trigger] listed(tasks, false)[i]).done by {
            if i < f.len() {
                assert(listed(tasks, false)[i] == f[i]);
            }
        }
    } else {
        assert(listed(tasks, true) =~= tasks);
    }
}

/// Storage-agnostic façade over a [`TaskStore`].
pub struct TaskManager<S> {
    store: S,
}

impl<S: TaskStore> View for TaskManager<S> {
    type V = Seq<TaskView>;

    open spec fn view(&self) -> Seq<TaskView> {
        self.store().task_views()
    }
}

impl<S: TaskStore> TaskManager<S> {
    /// The store this manager delegates to.
    pub closed spec fn store(&self) -> S {
        self.store
    }

    /// Wraps an existing store.
    pub fn new(store: S) -> (r: TaskManager<S>)
        ensures
            r.store() == store,
            r@ == store.task_views(),
    {
        TaskManager { store }
    }

    /// Adds a task, delegating id allocation and persistence to the store.
    pub fn add(&mut self, title: &str) -> (r: Result<Task, TaskError>)
        ensures
            trim(title@).len() == 0 ==> r == Err::<Task, TaskError>(TaskError::InvalidTitle),
            r is Ok <==> old(self).store().add_ok(title@),
            old(self).store().adds(title@, final(self).store(), r),
            r matches Ok(t) ==> {
                &&& t@.id == old(self).store().next_task_id()
                &&& t@.title == trim(title@)
                &&& !t@.done
                &&& !has_id(old(self)@, t@.id)
                &&& final(self)@ == old(self)@.push(t@)
            },
            r is Err ==> final(self)@ == old(self)@,
    {
        self.store.add(title)
    }

    /// Borrows the current tasks; when `include_done` is false, completed tasks
    /// are filtered out. This is a read-only view and does not mutate storage.
    pub fn list(&self, include_done: bool) -> (r: Vec<&Task>)
        ensures
            ref_views(r@) == listed(self@, include_done),
    {
        let tasks = self.store.tasks();
        let ghost all = views(tasks@);
        let ghost pred = |t: TaskView| include_done || !t.done;
        let mut result: Vec<&Task> = Vec::new();
        let mut i: usize = 0;
        while i < tasks.len()
            invariant
                i <= tasks.len(),
                all == views(tasks@),
                pred == (|t: TaskView| include_done || !t.done),
                ref_views(result@) == views(tasks@.subrange(0, i as int)).filter(pred),
            decreases tasks.len() - i,
        {
            let task = &tasks[i];
            let ghost prev = result@;
            proof {
                lemma_views_prefix(tasks@, i as int);
                views(tasks@.subrange(0, i as int)).lemma_filter_push(task@, pred);
            }
            if include_done || !task.is_done() {
                result.push(task);
                assert(ref_views(result@) =~= ref_views(prev).push(task@));
            }
            i = i + 1;
        }
        assert(tasks@.subrange(0, i as int) =~= tasks@);
        result
    }

    /// Completes the task with `id`.
    pub fn complete(&mut self, id: TaskId) -> (r: Result<Task, TaskError>)
        ensures
            !has_id(old(self)@, id@) ==> r == Err::<Task, TaskError>(TaskError::NotFound(id)),
            r is Ok <==> old(self).store().complete_ok(id@),
            old(self).store().completes(id@, final(self).store(), r),
            r matches Ok(t) ==> {
                let i = position_of(old(self)@, id@);
                &&& has_id(old(self)@, id@)
                &&& t@ == completed(old(self)@[i])
                &&& final(self)@ == old(self)@.update(i, t@)
            },
            r is Err ==> final(self)@ == old(self)@,
    {
        self.store.complete(id)
    }

    /// Removes the task with `id`.
    pub fn remove(&mut self, id: TaskId) -> (r: Result<Task, TaskError>)
        ensures
            !has_id(old(self)@, id@) ==> r == Err::<Task, TaskError>(TaskError::NotFound(id)),
            r is Ok <==> old(self).store().remove_ok(id@),
            old(self).store().removes(id@, final(self).store(), r),
            r matches Ok(t) ==> {
                let i = position_of(old(self)@, id@);
                &&& has_id(old(self)@, id@)
                &&& t@ == old(self)@[i]
                &&& final(self)@ == old(self)@.remove(i)
            },
            r is Err ==> final(self)@ == old(self)@,
    {
        self.store.remove(id)
    }

    /// Unwraps the manager back into its owned store.
    pub fn into_store(self) -> (r: S)
        ensures
            r.task_views() == self@,
    {
        self.store
    }
}

} // verus!
