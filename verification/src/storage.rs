//! In-memory task storage and the pure part of the versioned JSON store.
//!
//! [`InMemoryTaskStore`] is the source of truth for the store invariants
//! (unique ids and a `next_id` that never collides). [`JsonFileTaskStore`]
//! stages every mutation on a copy of its state; the copy becomes the state
//! only once the caller has persisted it, so a failed save leaves the store
//! unchanged.

use vstd::prelude::*;

use crate::domain::{
    completed, has_id, ids_unique, lemma_views_prefix, lemma_views_push, position_of, views, Task, TaskError, TaskId, TaskStore,
    TaskView,
};
use crate::text::{decimal, decimal_string, trim};

verus! {

/// The on-disk format version understood by [`JsonFileTaskStore`].
pub const STORAGE_VERSION: u8 = 1;

/// The abstract value of a store: its tasks and the next id it will allocate.
pub ghost struct StoreView {
    pub tasks: Seq<TaskView>,
    pub next_id: u64,
}

/// The store invariant: `next_id` is positive, ids are unique and every id is
/// below `next_id`, so freshly allocated ids never collide.
pub open spec fn store_valid(s: StoreView) -> bool {
    &&& s.next_id > 0
    &&& ids_unique(s.tasks)
    &&& forall|i: int| 0 <= i < s.tasks.len() ==> #[trigger] s.tasks[i].id < s.next_id
}

/// A `Vec`-backed store.
#[derive(Debug)]
pub struct InMemoryTaskStore {
    tasks: Vec<Task>,
    next_id: u64,
}

impl View for InMemoryTaskStore {
    type V = StoreView;

    closed spec fn view(&self) -> StoreView {
        StoreView { tasks: views(self.tasks@), next_id: self.next_id }
    }
}

fn clone_tasks(tasks: &Vec<Task>) -> (r: Vec<Task>)
    ensures
        views(r@) == views(tasks@),
{
    let mut r: Vec<Task> = Vec::new();
    let mut i: usize = 0;
    while i < tasks.len()
        invariant
            i <= tasks.len(),
            views(r@) == views(tasks@.subrange(0, i as int)),
        decreases tasks.len() - i,
    {
        let ghost prev = r@;
        let c = tasks[i].clone();
        r.push(c);
        proof {
            lemma_views_push(prev, c);
            lemma_views_prefix(tasks@, i as int);
        }
        i = i + 1;
    }
    assert(tasks@.subrange(0, i as int) =~= tasks@);
    r
}

impl Clone for InMemoryTaskStore {
    fn clone(&self) -> (r: InMemoryTaskStore)
        ensures
            r@ == self@,
    {
        proof {
            use_type_invariant(self);
        }
        InMemoryTaskStore { tasks: clone_tasks(&self.tasks), next_id: self.next_id }
    }
}

/// The message reported when a persisted `next_id` does not exceed every id.
pub open spec fn next_id_message(next_id: u64, maximum_id: u64) -> Seq<char> {
    "next_id "@ + decimal(next_id as nat) + " must exceed maximum task id "@ + decimal(
        maximum_id as nat,
    )
}

/// The largest id in `tasks`, or 0 when there is none.
pub open spec fn max_id(tasks: Seq<TaskView>) -> u64
    decreases tasks.len(),
{
    if tasks.len() == 0 {
        0
    } else {
        let m = max_id(tasks.drop_last());
        if tasks.last().id > m {
            tasks.last().id
        } else {
            m
        }
    }
}

proof fn lemma_max_id(tasks: Seq<TaskView>)
    ensures
        forall|i: int| 0 <= i < tasks.len() ==> #[trigger] tasks[i].id <= max_id(tasks),
        tasks.len() > 0 ==> has_id(tasks, max_id(tasks)),
    decreases tasks.len(),
{
    if tasks.len() > 0 {
        let d = tasks.drop_last();
        lemma_max_id(d);
        assert forall|i: int| 0 <= i < tasks.len() implies #[trigger] tasks[i].id <= max_id(
            tasks,
        ) by {
            if i < tasks.len() - 1 {
                assert(tasks[i] == d[i]);
            }
        }
        if tasks.last().id <= max_id(d) && d.len() > 0 {
            let j = choose|j: int| 0 <= j < d.len() && #[trigger] d[j].id == max_id(d);
            assert(tasks[j] == d[j]);
        }
        assert(tasks[tasks.len() - 1] == tasks.last());
    }
}

impl InMemoryTaskStore {
    #[verifier::type_invariant]
    closed spec fn valid(self) -> bool {
        store_valid(self@)
    }

    /// Creates an empty store whose first allocated id will be 1.
    pub fn new() -> (r: InMemoryTaskStore)
        ensures
            r@ == (StoreView { tasks: Seq::empty(), next_id: 1 }),
    {
        let r = InMemoryTaskStore { tasks: Vec::new(), next_id: 1 };
        assert(views(r.tasks@) =~= Seq::empty());
        r
    }

    /// The id the next successful `add` will allocate.
    pub fn next_id(&self) -> (r: u64)
        ensures
            r == self@.next_id,
            store_valid(self@),
    {
        proof {
            use_type_invariant(self);
        }
        self.next_id
    }

    /// Rebuilds a store from persisted parts, re-validating every invariant:
    /// titles are re-checked, ids must be unique, and `next_id` must exceed the
    /// largest id present.
    pub fn from_parts(tasks: Vec<Task>, next_id: u64) -> (r: Result<InMemoryTaskStore, TaskError>)
        ensures
            r is Ok <==> store_valid(StoreView { tasks: views(tasks@), next_id }),
            r matches Ok(s) ==> s@ == (StoreView { tasks: views(tasks@), next_id }),
            r matches Err(e) ==> e is InvalidStorage,
            next_id == 0 ==> (r matches Err(TaskError::InvalidStorage(m)) && m@
                == "next_id must be positive"@),
            next_id != 0 && !ids_unique(views(tasks@)) ==> (r matches Err(
                TaskError::InvalidStorage(m),
            ) && m@ == "task ids must be unique"@),
            next_id != 0 && ids_unique(views(tasks@)) && next_id <= max_id(views(tasks@))
                ==> (r matches Err(TaskError::InvalidStorage(m)) && m@ == next_id_message(
                next_id,
                max_id(views(tasks@)),
            )),
    {
        if next_id == 0 {
            return Err(TaskError::InvalidStorage(String::from_str("next_id must be positive")));
        }
        let mut validated: Vec<Task> = Vec::new();
        let mut i: usize = 0;
        while i < tasks.len()
            invariant
                i <= tasks.len(),
                views(validated@) == views(tasks@.subrange(0, i as int)),
            decreases tasks.len() - i,
        {
            let task = tasks[i].clone().validate()?;
            let ghost prev = validated@;
            validated.push(task);
            proof {
                lemma_views_push(prev, task);
                lemma_views_prefix(tasks@, i as int);
            }
            i = i + 1;
        }
        assert(tasks@.subrange(0, i as int) =~= tasks@);
        if has_duplicate_ids(&validated) {
            return Err(TaskError::InvalidStorage(String::from_str("task ids must be unique")));
        }
        let maximum_id = maximum_id(&validated);
        proof {
            lemma_max_id(views(validated@));
        }
        if next_id <= maximum_id {
            let mut message = String::from_str("next_id ");
            message.append(decimal_string(next_id).as_str());
            message.append(" must exceed maximum task id ");
            message.append(decimal_string(maximum_id).as_str());
            return Err(TaskError::InvalidStorage(message));
        }
        Ok(InMemoryTaskStore { tasks: validated, next_id })
    }
}

proof fn lemma_push_valid(s: StoreView, t: TaskView)
    requires
        store_valid(s),
        t.id == s.next_id,
        s.next_id < u64::MAX,
    ensures
        store_valid(StoreView { tasks: s.tasks.push(t), next_id: (s.next_id + 1) as u64 }),
{
    let n = s.tasks.push(t);
    assert forall|i: int, j: int|
        0 <= i < n.len() && 0 <= j < n.len() && i != j implies #[trigger] n[i].id != #[trigger] n[j].id by {
        if i < s.tasks.len() && j < s.tasks.len() {
            assert(n[i] == s.tasks[i] && n[j] == s.tasks[j]);
        } else if i < s.tasks.len() {
            assert(n[i] == s.tasks[i]);
        } else {
            assert(n[j] == s.tasks[j]);
        }
    }
    assert forall|i: int| 0 <= i < n.len() implies #[trigger] n[i].id < s.next_id + 1 by {
        if i < s.tasks.len() {
            assert(n[i] == s.tasks[i]);
        }
    }
}

proof fn lemma_update_valid(s: StoreView, k: int, t: TaskView)
    requires
        store_valid(s),
        0 <= k < s.tasks.len(),
        t.id == s.tasks[k].id,
    ensures
        store_valid(StoreView { tasks: s.tasks.update(k, t), ..s }),
{
    let n = s.tasks.update(k, t);
    assert forall|i: int, j: int|
        0 <= i < n.len() && 0 <= j < n.len() && i != j implies #[trigger] n[i].id != #[trigger] n[j].id by {
        assert(n[i].id == s.tasks[i].id && n[j].id == s.tasks[j].id);
    }
    assert forall|i: int| 0 <= i < n.len() implies #[trigger] n[i].id < s.next_id by {
        assert(n[i].id == s.tasks[i].id);
    }
}

proof fn lemma_remove_valid(s: StoreView, k: int)
    requires
        store_valid(s),
        0 <= k < s.tasks.len(),
    ensures
        store_valid(StoreView { tasks: s.tasks.remove(k), ..s }),
{
    let n = s.tasks.remove(k);
    assert forall|i: int, j: int|
        0 <= i < n.len() && 0 <= j < n.len() && i != j implies #[trigger] n[i].id != #[trigger] n[j].id by {
        let a = if i < k { i } else { i + 1 };
        let b = if j < k { j } else { j + 1 };
        assert(n[i] == s.tasks[a] && n[j] == s.tasks[b]);
    }
    assert forall|i: int| 0 <= i < n.len() implies #[trigger] n[i].id < s.next_id by {
        let a = if i < k { i } else { i + 1 };
        assert(n[i] == s.tasks[a]);
    }
}

impl InMemoryTaskStore {
    /// The position of the task with `id`, or [`TaskError::NotFound`].
    pub fn find_index(&self, id: TaskId) -> (r: Result<usize, TaskError>)
        ensures
            !has_id(self@.tasks, id@) <==> r == Err::<usize, TaskError>(TaskError::NotFound(id)),
            r is Ok <==> has_id(self@.tasks, id@),
            r matches Ok(i) ==> i == position_of(self@.tasks, id@) && i < self@.tasks.len(),
    {
        proof {
            use_type_invariant(self);
        }
        let ghost v = self@.tasks;
        let mut i: usize = 0;
        while i < self.tasks.len()
            invariant
                i <= self.tasks.len(),
                v == views(self.tasks@),
                ids_unique(v),
                forall|k: int| 0 <= k < i ==> #[trigger] v[k].id != id@,
            decreases self.tasks.len() - i,
        {
            if self.tasks[i].id().same(id) {
                proof {
                    assert(v[i as int].id == id@);
                    let p = position_of(v, id@);
                    assert(ids_unique(v));
                    assert(v[p].id == id@);
                }
                return Ok(i);
            }
            i = i + 1;
        }
        Err(TaskError::NotFound(id))
    }
}

impl Default for InMemoryTaskStore {
    fn default() -> (r: InMemoryTaskStore)
        ensures
            r@ == (StoreView { tasks: Seq::empty(), next_id: 1 }),
    {
        InMemoryTaskStore::new()
    }
}

impl TaskStore for InMemoryTaskStore {
    open spec fn task_views(&self) -> Seq<TaskView> {
        self@.tasks
    }

    open spec fn add_ok(&self, title: Seq<char>) -> bool {
        trim(title).len() != 0 && self@.next_id < u64::MAX
    }

    open spec fn next_task_id(&self) -> u64 {
        self@.next_id
    }

    open spec fn complete_ok(&self, id: u64) -> bool {
        has_id(self@.tasks, id)
    }

    open spec fn remove_ok(&self, id: u64) -> bool {
        has_id(self@.tasks, id)
    }

    open spec fn adds(&self, title: Seq<char>, after: Self, r: Result<Task, TaskError>) -> bool {
        if self.add_ok(title) {
            &&& r matches Ok(t) && t@ == (TaskView { id: self@.next_id, title: trim(title), done: false })
                && after@ == (StoreView {
                tasks: self@.tasks.push(t@),
                next_id: (self@.next_id + 1) as u64,
            })
        } else {
            &&& after@ == self@
            &&& trim(title).len() == 0 ==> r == Err::<Task, TaskError>(TaskError::InvalidTitle)
            &&& trim(title).len() != 0 ==> (r matches Err(TaskError::InvalidStorage(m)) && m@
                == "task id space exhausted"@)
        }
    }

    open spec fn completes(&self, id: u64, after: Self, r: Result<Task, TaskError>) -> bool {
        if has_id(self@.tasks, id) {
            let i = position_of(self@.tasks, id);
            r matches Ok(t) && t@ == completed(self@.tasks[i]) && after@ == (StoreView {
                tasks: self@.tasks.update(i, t@),
                next_id: self@.next_id,
            })
        } else {
            &&& after@ == self@
            &&& r matches Err(TaskError::NotFound(x)) && x@ == id
        }
    }

    open spec fn removes(&self, id: u64, after: Self, r: Result<Task, TaskError>) -> bool {
        if has_id(self@.tasks, id) {
            let i = position_of(self@.tasks, id);
            r matches Ok(t) && t@ == self@.tasks[i] && after@ == (StoreView {
                tasks: self@.tasks.remove(i),
                next_id: self@.next_id,
            })
        } else {
            &&& after@ == self@
            &&& r matches Err(TaskError::NotFound(x)) && x@ == id
        }
    }

    fn tasks(&self) -> (r: &[Task]) {
        self.tasks.as_slice()
    }

    fn add(&mut self, title: &str) -> (r: Result<Task, TaskError>)
        ensures
            r is Ok <==> trim(title@).len() != 0 && old(self)@.next_id < u64::MAX,
            trim(title@).len() != 0 && old(self)@.next_id == u64::MAX ==> (r matches Err(
                TaskError::InvalidStorage(m),
            ) && m@ == "task id space exhausted"@),
            r matches Ok(t) ==> t@.id == old(self)@.next_id && final(self)@ == (StoreView {
                tasks: old(self)@.tasks.push(t@),
                next_id: (old(self)@.next_id + 1) as u64,
            }),
            r is Err ==> final(self)@ == old(self)@,
    {
        let (task, next) = self.allocate(title)?;
        let ghost prev = self.tasks@;
        let c = task.clone();
        proof {
            use_type_invariant(&*self);
            lemma_views_push(prev, c);
            lemma_push_valid(self@, c@);
        }
        let mut tasks: Vec<Task> = Vec::new();
        std::mem::swap(&mut tasks, &mut self.tasks);
        tasks.push(c);
        *self = InMemoryTaskStore { tasks, next_id: next };
        Ok(task)
    }

    fn complete(&mut self, id: TaskId) -> (r: Result<Task, TaskError>)
        ensures
            r is Ok <==> has_id(old(self)@.tasks, id@),
            final(self)@.next_id == old(self)@.next_id,
    {
        proof {
            use_type_invariant(&*self);
        }
        let index = self.find_index(id)?;
        let ghost prev = self.tasks@;
        let mut task = self.tasks[index].clone();
        task.mark_done();
        let copy = task.clone();
        let mut tasks: Vec<Task> = Vec::new();
        std::mem::swap(&mut tasks, &mut self.tasks);
        tasks.set(index, copy);
        let next_id = self.next_id;
        proof {
            assert(views(tasks@) =~= views(prev).update(index as int, task@));
            lemma_update_valid(old(self)@, index as int, task@);
        }
        *self = InMemoryTaskStore { tasks, next_id };
        Ok(task)
    }

    fn remove(&mut self, id: TaskId) -> (r: Result<Task, TaskError>)
        ensures
            r is Ok <==> has_id(old(self)@.tasks, id@),
            final(self)@.next_id == old(self)@.next_id,
    {
        proof {
            use_type_invariant(&*self);
        }
        let index = self.find_index(id)?;
        let ghost prev = self.tasks@;
        let mut tasks: Vec<Task> = Vec::new();
        std::mem::swap(&mut tasks, &mut self.tasks);
        let task = tasks.remove(index);
        let next_id = self.next_id;
        proof {
            assert(views(tasks@) =~= views(prev).remove(index as int));
            lemma_remove_valid(old(self)@, index as int);
        }
        *self = InMemoryTaskStore { tasks, next_id };
        proof {
            assert(views(self.tasks@) =~= views(prev).remove(index as int));
            lemma_remove_valid(old(self)@, index as int);
        }
        Ok(task)
    }
}

impl InMemoryTaskStore {
    // Validates the title and reserves the next id, without changing the store.
    fn allocate(&self, title: &str) -> (r: Result<(Task, u64), TaskError>)
        ensures
            trim(title@).len() == 0 ==> r == Err::<(Task, u64), TaskError>(TaskError::InvalidTitle),
            trim(title@).len() != 0 && self@.next_id == u64::MAX ==> (r matches Err(
                TaskError::InvalidStorage(m),
            ) && m@ == "task id space exhausted"@),
            r is Ok <==> trim(title@).len() != 0 && self@.next_id < u64::MAX,
            r matches Ok((t, n)) ==> t@ == (TaskView {
                id: self@.next_id,
                title: trim(title@),
                done: false,
            }) && n == self@.next_id + 1,
    {
        proof {
            use_type_invariant(self);
        }
        let id = TaskId::new(self.next_id)?;
        let task = Task::new(id, title)?;
        if self.next_id == u64::MAX {
            return Err(TaskError::InvalidStorage(String::from_str("task id space exhausted")));
        }
        Ok((task, self.next_id + 1))
    }
}

/// Whether two tasks of `tasks` share an identifier.
fn has_duplicate_ids(tasks: &Vec<Task>) -> (r: bool)
    ensures
        r == !ids_unique(views(tasks@)),
{
    let ghost v = views(tasks@);
    let mut i: usize = 0;
    while i < tasks.len()
        invariant
            i <= tasks.len(),
            v == views(tasks@),
            forall|a: int, b: int| 0 <= a < i && 0 <= b < a ==> #[trigger] v[a].id != #[trigger] v[b].id,
        decreases tasks.len() - i,
    {
        let mut j: usize = 0;
        while j < i
            invariant
                j <= i < tasks.len(),
                v == views(tasks@),
                forall|a: int, b: int| 0 <= a < i && 0 <= b < a ==> #[trigger] v[a].id != #[trigger] v[b].id,
                forall|b: int| 0 <= b < j ==> v[i as int].id != #[trigger] v[b].id,
            decreases i - j,
        {
            if tasks[i].id().same(tasks[j].id()) {
                assert(v[i as int].id == v[j as int].id);
                return true;
            }
            j = j + 1;
        }
        i = i + 1;
    }
    assert forall|a: int, b: int|
        0 <= a < v.len() && 0 <= b < v.len() && a != b implies #[trigger] v[a].id != #[trigger] v[b].id by {
        if a < b {
            assert(v[b].id != v[a].id);
        }
    }
    false
}

/// The largest id in `tasks`, or 0 when there is none.
fn maximum_id(tasks: &Vec<Task>) -> (r: u64)
    ensures
        r == max_id(views(tasks@)),
{
    let mut m: u64 = 0;
    let mut i: usize = 0;
    while i < tasks.len()
        invariant
            i <= tasks.len(),
            m == max_id(views(tasks@.subrange(0, i as int))),
        decreases tasks.len() - i,
    {
        let id = tasks[i].id().get();
        let ghost before = views(tasks@.subrange(0, i as int));
        if id > m {
            m = id;
        }
        i = i + 1;
        assert(views(tasks@.subrange(0, i as int)).drop_last() =~= before);
    }
    assert(tasks@.subrange(0, i as int) =~= tasks@);
    m
}

/// The parent component of a path, as `std::path::Path::parent` computes it.
pub uninterp spec fn path_parent(path: Seq<char>) -> Option<Seq<char>>;

/// `std::path::Path::parent` on `path`: the path without its final
/// component, or `None` when it ends in a root or prefix or is empty. This
/// claims only that the result is a function of `path`.
#[verifier::external_body]
fn parent_of(path: &str) -> (r: Option<String>)
    ensures
        r matches Some(p) ==> path_parent(path@) == Some(p@),
        r is None ==> path_parent(path@) is None,
{
    std::path::Path::new(path).parent().map(|parent| parent.to_string_lossy().into_owned())
}

/// The directory a store file lives in: a bare filename has an empty parent,
/// which is treated as the current directory `.`.
pub open spec fn spec_parent_directory(path: Seq<char>) -> Seq<char> {
    match path_parent(path) {
        Some(p) => if p.len() > 0 { p } else { "."@ },
        None => "."@,
    }
}

/// The directory holding `path`, so that temporary files have a real
/// directory to target.
pub fn parent_directory(path: &str) -> (r: String)
    ensures
        r@ == spec_parent_directory(path@),
{
    match parent_of(path) {
        Some(parent) => {
            if parent.as_str().is_empty() {
                String::from_str(".")
            } else {
                parent
            }
        },
        None => String::from_str("."),
    }
}

/// The message reported for a store file of another format version.
pub open spec fn version_message(version: u8) -> Seq<char> {
    "unsupported version "@ + decimal(version as nat) + "; expected 1"@
}

/// A versioned JSON store intended for one writer process at a time.
///
/// Every mutation is staged on a copy of the state; the caller persists the
/// copy and hands the outcome to [`JsonFileTaskStore::commit`], so a failed
/// save leaves the store unchanged.
pub struct JsonFileTaskStore {
    path: String,
    state: InMemoryTaskStore,
}

impl View for JsonFileTaskStore {
    type V = StoreView;

    closed spec fn view(&self) -> StoreView {
        self.state@
    }
}

impl JsonFileTaskStore {
    /// The store for a file that does not exist yet: empty, first id 1.
    pub fn empty(path: String) -> (r: JsonFileTaskStore)
        ensures
            r@ == (StoreView { tasks: Seq::empty(), next_id: 1 }),
            r.path_view() == path@,
    {
        JsonFileTaskStore { path, state: InMemoryTaskStore::new() }
    }

    /// The file path this store persists to.
    pub closed spec fn path_view(&self) -> Seq<char> {
        self.path@
    }

    /// Builds the store from a decoded file: the version must be
    /// [`STORAGE_VERSION`] and the parts must pass the
    /// [`InMemoryTaskStore::from_parts`] checks.
    pub fn from_file(path: String, version: u8, next_id: u64, tasks: Vec<Task>) -> (r: Result<
        JsonFileTaskStore,
        TaskError,
    >)
        ensures
            version != STORAGE_VERSION ==> (r matches Err(TaskError::InvalidStorage(m)) && m@
                == version_message(version)),
            r is Ok <==> version == STORAGE_VERSION && store_valid(
                StoreView { tasks: views(tasks@), next_id },
            ),
            r matches Ok(s) ==> s@ == (StoreView { tasks: views(tasks@), next_id })
                && s.path_view() == path@,
            r matches Err(e) ==> e is InvalidStorage,
    {
        if version != STORAGE_VERSION {
            let mut message = String::from_str("unsupported version ");
            message.append(decimal_string(version as u64).as_str());
            message.append("; expected 1");
            return Err(TaskError::InvalidStorage(message));
        }
        let state = InMemoryTaskStore::from_parts(tasks, next_id)?;
        Ok(JsonFileTaskStore { path, state })
    }

    /// Returns the file path this store persists to.
    pub fn path(&self) -> (r: &str)
        ensures
            r@ == self.path_view(),
    {
        self.path.as_str()
    }

    /// The current state, which is what the file holds.
    pub fn state(&self) -> (r: &InMemoryTaskStore)
        ensures
            r@ == self@,
    {
        &self.state
    }

    /// Returns all stored tasks, including completed ones.
    pub fn tasks(&self) -> (r: &[Task])
        ensures
            views(r@) == self@.tasks,
    {
        self.state.tasks()
    }

    /// Finishes a staged change: `candidate` is the state the change
    /// produced on a copy, and `saved` is the outcome of persisting it. The
    /// copy becomes the store's state only when the save succeeded; a failed
    /// save leaves the store as it was and is reported.
    pub fn commit(&mut self, candidate: InMemoryTaskStore, saved: Result<(), TaskError>) -> (r: Result<
        (),
        TaskError,
    >)
        ensures
            r == saved,
            saved is Ok ==> final(self)@ == candidate@,
            saved is Err ==> final(self)@ == old(self)@,
            final(self).path_view() == old(self).path_view(),
    {
        if saved.is_ok() {
            self.state = candidate;
        }
        saved
    }
}


/// Removing undoes adding: once the task at `i` is removed from a valid
/// store, no task with its id remains, and the store stays valid with the
/// same next id, so the id is never handed out again.
pub proof fn law_removed_is_gone(s: StoreView, i: int)
    requires
        store_valid(s),
        0 <= i < s.tasks.len(),
    ensures
        !has_id(s.tasks.remove(i), s.tasks[i].id),
        store_valid(StoreView { tasks: s.tasks.remove(i), next_id: s.next_id }),
        s.tasks[i].id < s.next_id,
{
    let r = s.tasks.remove(i);
    assert forall|j: int| 0 <= j < r.len() implies (#[trigger] r[j]).id != s.tasks[i].id by {
        let a = if j < i { j } else { j + 1 };
        assert(r[j] == s.tasks[a]);
        assert(a != i);
    }
    lemma_remove_valid(s, i);
}

} // verus!
