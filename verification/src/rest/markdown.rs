//! The Markdown checklist document: a human-readable single-file task store.
//!
//! The first line is a metadata comment recording the format version and the
//! next ID, followed by a `# Tasks` heading, a blank line and one checklist row
//! per task, with exactly one trailing newline. Parsing treats the text as
//! untrusted and rejects anything malformed instead of guessing a repair;
//! serializing sorts tasks by ID so repeated saves are byte-identical.

use vstd::prelude::*;
use vstd::utf8::{
    decode_utf8, decode_utf8_encode_utf8, encode_utf8, encode_utf8_decode_utf8, encode_utf8_valid_utf8,
    valid_utf8,
};

use crate::rest::domain::{
    apply_patch, char_error, parts_outcome, patch_title, TaskFilter, TaskPatch, is_line_break, title_outcome, valid_title, validate_title, validate_title_outcome,
    Task, TaskView,
};
use crate::rest::error::{is_storage, is_validation, TaskError};
use crate::text::{
    all_digits, chars_of, decimal, decimal_string, digits_value, ends_with, find_char, has_prefix,
    has_suffix, is_digit, join_with, lemma_decimal, lemma_decimal_canonical, lemma_join_split,
    lemma_split_once_str_parts, lemma_find_char_at, lemma_find_str_after,
    lemma_join_push, lemma_split_join, lemma_trim_shape, parse_digits, signed_decimal,
    signed_decimal_string, slice_chars, split_char, split_chars, split_once_pattern,
    split_once_str, starts_with, string_from_chars, trim, utf8_string, debug_quoted, debug_str,
};

verus! {

/// The in-memory form of a parsed file: the next ID to allocate plus the
/// tasks, kept in ascending ID order.
pub struct Document {
    next_id: i64,
    tasks: Vec<Task>,
}

/// The abstract value of a document.
pub ghost struct DocumentView {
    pub next_id: i64,
    pub tasks: Seq<TaskView>,
}

impl View for Document {
    type V = DocumentView;

    closed spec fn view(&self) -> DocumentView {
        DocumentView { next_id: self.next_id, tasks: self.tasks@.map_values(|t: Task| t@) }
    }
}

/// Whether some task in `tasks` has ID `id`.
pub open spec fn has_task(tasks: Seq<TaskView>, id: i64) -> bool {
    exists|k: int| 0 <= k < tasks.len() && (#[trigger] tasks[k]).id == id
}

/// Whether a task passes a completion filter.
pub open spec fn filter_keeps(filter: TaskFilter, t: TaskView) -> bool {
    match filter.completed {
        Some(c) => t.completed == c,
        None => true,
    }
}

/// The tasks a completion filter keeps, in their order.
pub open spec fn filtered(tasks: Seq<TaskView>, filter: TaskFilter) -> Seq<TaskView> {
    tasks.filter(|t: TaskView| filter_keeps(filter, t))
}

/// The views of a sequence of tasks.
pub open spec fn task_views(tasks: Seq<Task>) -> Seq<TaskView> {
    tasks.map_values(|t: Task| t@)
}

impl Document {
    #[verifier::type_invariant]
    closed spec fn well_formed(self) -> bool {
        well_formed_document(self@)
    }

    /// A fresh store: no tasks, and the first ID to allocate is `1`.
    pub fn empty() -> (d: Document)
        ensures
            d@ == (DocumentView { next_id: 1, tasks: Seq::empty() }),
    {
        let d = Document { next_id: 1, tasks: Vec::new() };
        assert(d@.tasks =~= Seq::<TaskView>::empty());
        d
    }

    /// The next ID to allocate.
    pub fn next_id(&self) -> (r: i64)
        ensures
            r == self@.next_id,
    {
        self.next_id
    }

    /// The tasks, in ascending ID order; the document is well formed.
    pub fn tasks(&self) -> (r: &Vec<Task>)
        ensures
            task_views(r@) == self@.tasks,
            well_formed_document(self@),
    {
        proof {
            use_type_invariant(self);
        }
        &self.tasks
    }

    /// The index of the task with ID `id`, found by binary search over the
    /// ascending IDs.
    fn position(&self, id: i64) -> (r: Option<usize>)
        ensures
            r matches Some(k) ==> k < self@.tasks.len() && self@.tasks[k as int].id == id,
            r is None ==> !has_task(self@.tasks, id),
    {
        proof {
            use_type_invariant(self);
        }
        let ghost ts = self@.tasks;
        let mut low: usize = 0;
        let mut high: usize = self.tasks.len();
        while low < high
            invariant
                ts == self@.tasks,
                ts == task_views(self.tasks@),
                well_formed_document(self@),
                low <= high <= ts.len(),
                forall|k: int| 0 <= k < low ==> ts[k].id < id,
                forall|k: int| high <= k < ts.len() ==> ts[k].id > id,
            decreases high - low,
        {
            let mid = low + (high - low) / 2;
            let found = self.tasks[mid].id();
            assert(ts[mid as int] == self.tasks@[mid as int]@);
            if found == id {
                return Some(mid);
            } else if found < id {
                low = mid + 1;
            } else {
                high = mid;
            }
        }
        None
    }

    /// Allocates the next ID for a new, incomplete task titled `title` (which
    /// must already be in stored form) and appends it. Running out of IDs is a
    /// storage error rather than a wrap-around; neither failure changes the
    /// document.
    pub fn create(&mut self, title: &str) -> (r: Result<Task, TaskError>)
        ensures
            old(self)@.next_id == i64::MAX ==> (r matches Err(e) && is_storage(e, "create task"@)
                && final(self)@ == old(self)@),
            old(self)@.next_id < i64::MAX ==> (parts_outcome(old(self)@.next_id, title@) matches Err((f, m))
                ==> (r matches Err(e) && is_validation(e, f, m) && final(self)@ == old(self)@)),
            old(self)@.next_id < i64::MAX && parts_outcome(old(self)@.next_id, title@) is Ok ==> (
            r matches Ok(t) && t@ == (TaskView { id: old(self)@.next_id, title: title@, completed: false })
                && !has_task(old(self)@.tasks, t@.id) && final(self)@ == (DocumentView {
                next_id: (old(self)@.next_id + 1) as i64,
                tasks: old(self)@.tasks.push(t@),
            })),
    {
        proof {
            use_type_invariant(&*self);
        }
        let id = self.next_id;
        if id == i64::MAX {
            return Err(TaskError::storage("create task", "Markdown store has exhausted task IDs"));
        }
        let created = Task::from_parts(id, title, false)?;
        let copy = created.clone();
        let ghost before = self@;
        let mut tasks: Vec<Task> = Vec::new();
        std::mem::swap(&mut tasks, &mut self.tasks);
        tasks.push(copy);
        proof {
            assert(task_views(tasks@) =~= before.tasks.push(created@));
            assert(!has_task(before.tasks, id)) by {
                if has_task(before.tasks, id) {
                    let k = choose|k: int| 0 <= k < before.tasks.len() && (#[trigger] before.tasks[k]).id == id;
                    assert(before.tasks[k].id <= last_id(before.tasks)) by {
                        if k < before.tasks.len() - 1 {
                            assert(before.tasks[k].id < before.tasks[before.tasks.len() - 1].id);
                        }
                    }
                }
            }
            let nt = before.tasks.push(created@);
            assert forall|i: int, j: int| 0 <= i < j < nt.len() implies nt[i].id < nt[j].id by {
                if j == nt.len() - 1 {
                    if i < before.tasks.len() - 1 {
                        assert(before.tasks[i].id < before.tasks[before.tasks.len() - 1].id);
                    }
                } else {
                    assert(nt[i] == before.tasks[i] && nt[j] == before.tasks[j]);
                }
            }
            assert forall|i: int| 0 <= i < nt.len() implies (#[trigger] nt[i]).id > 0 && valid_title(nt[i].title) by {
                if i < before.tasks.len() {
                    assert(nt[i] == before.tasks[i]);
                }
            }
        }
        *self = Document { next_id: id + 1, tasks };
        Ok(created)
    }

    /// The tasks matching `filter`, in ascending ID order.
    pub fn list(&self, filter: TaskFilter) -> (r: Vec<Task>)
        ensures
            task_views(r@) == filtered(self@.tasks, filter),
    {
        let ghost all = self@.tasks;
        let ghost pred = |t: TaskView| filter_keeps(filter, t);
        let mut result: Vec<Task> = Vec::new();
        let mut i: usize = 0;
        while i < self.tasks.len()
            invariant
                i <= self.tasks@.len(),
                all == self@.tasks,
                all == task_views(self.tasks@),
                pred == (|t: TaskView| filter_keeps(filter, t)),
                task_views(result@) == all.subrange(0, i as int).filter(pred),
            decreases self.tasks.len() - i,
        {
            let task = &self.tasks[i];
            let ghost prev = result@;
            proof {
                assert(all.subrange(0, i + 1) =~= all.subrange(0, i as int).push(task@));
                all.subrange(0, i as int).lemma_filter_push(task@, pred);
            }
            let keep = match filter.completed {
                Some(c) => task.completed() == c,
                None => true,
            };
            if keep {
                result.push(task.clone());
                assert(task_views(result@) =~= task_views(prev).push(task@));
            }
            i = i + 1;
        }
        assert(all.subrange(0, i as int) =~= all);
        result
    }

    /// The task with ID `id`, or a not-found error.
    pub fn get(&self, id: i64) -> (r: Result<Task, TaskError>)
        ensures
            !has_task(self@.tasks, id) ==> r == Err::<Task, TaskError>(TaskError::NotFound { id }),
            forall|k: int| 0 <= k < self@.tasks.len() && (#[trigger] self@.tasks[k]).id == id
                ==> (r matches Ok(t) && t@ == self@.tasks[k]),
    {
        proof {
            use_type_invariant(self);
        }
        match self.position(id) {
            Some(k) => {
                let t = self.tasks[k].clone();
                proof {
                    assert(self@.tasks[k as int] == self.tasks@[k as int]@);
                    assert forall|j: int| 0 <= j < self@.tasks.len() && (#[trigger] self@.tasks[j]).id == id
                        implies j == k by {
                        if j < k {
                            assert(self@.tasks[j].id < self@.tasks[k as int].id);
                        } else if j > k {
                            assert(self@.tasks[k as int].id < self@.tasks[j].id);
                        }
                    }
                }
                Ok(t)
            },
            None => Err(TaskError::not_found(id)),
        }
    }

    /// Applies `patch` to the task with ID `id`: a present title replaces the
    /// title and a present flag replaces the completion state. The resulting
    /// title must be in stored form. Any failure leaves the document unchanged.
    pub fn update(&mut self, id: i64, patch: TaskPatch) -> (r: Result<Task, TaskError>)
        ensures
            !has_task(old(self)@.tasks, id) ==> r == Err::<Task, TaskError>(TaskError::NotFound { id })
                && final(self)@ == old(self)@,
            forall|k: int| 0 <= k < old(self)@.tasks.len() && (#[trigger] old(self)@.tasks[k]).id == id
                ==> {
                let cur = old(self)@.tasks[k];
                let title = match patch_title(patch) {
                    Some(t) => t,
                    None => cur.title,
                };
                let completed = match patch.completed {
                    Some(c) => c,
                    None => cur.completed,
                };
                match validate_title_outcome(title) {
                    Err(m) => r matches Err(e) && is_validation(e, "title"@, m) && final(self)@ == old(self)@,
                    Ok(_) => r matches Ok(t) && t@ == (TaskView { id, title, completed })
                        && final(self)@ == (DocumentView {
                        next_id: old(self)@.next_id,
                        tasks: old(self)@.tasks.update(k, t@),
                    }),
                }
            },
    {
        proof {
            use_type_invariant(&*self);
        }
        let k = match self.position(id) {
            Some(k) => k,
            None => {
                return Err(TaskError::not_found(id));
            },
        };
        let ghost before = self@;
        proof {
            assert(before.tasks[k as int] == self.tasks@[k as int]@);
            assert forall|j: int| 0 <= j < before.tasks.len() && (#[trigger] before.tasks[j]).id == id
                implies j == k by {
                if j < k {
                    assert(before.tasks[j].id < before.tasks[k as int].id);
                } else if j > k {
                    assert(before.tasks[k as int].id < before.tasks[j].id);
                }
            }
        }
        let updated = apply_patch(&self.tasks[k], &patch)?;
        let copy = updated.clone();
        let mut tasks: Vec<Task> = Vec::new();
        std::mem::swap(&mut tasks, &mut self.tasks);
        tasks.set(k, copy);
        proof {
            let nt = before.tasks.update(k as int, updated@);
            assert(task_views(tasks@) =~= nt);
            assert forall|i: int, j: int| 0 <= i < j < nt.len() implies nt[i].id < nt[j].id by {
                assert(before.tasks[i].id < before.tasks[j].id);
            }
            assert forall|i: int| 0 <= i < nt.len() implies (#[trigger] nt[i]).id > 0 && valid_title(nt[i].title) by {
                if i != k {
                    assert(nt[i] == before.tasks[i]);
                }
            }
            if nt.len() > 0 {
                assert(last_id(nt) == last_id(before.tasks));
            }
        }
        let next_id = self.next_id;
        *self = Document { next_id, tasks };
        Ok(updated)
    }

    /// Removes the task with ID `id`, or reports that it does not exist
    /// (leaving the document unchanged). The next ID is kept, so a removed
    /// ID is never allocated again.
    pub fn delete(&mut self, id: i64) -> (r: Result<(), TaskError>)
        ensures
            !has_task(old(self)@.tasks, id) ==> r == Err::<(), TaskError>(TaskError::NotFound { id })
                && final(self)@ == old(self)@,
            forall|k: int| 0 <= k < old(self)@.tasks.len() && (#[trigger] old(self)@.tasks[k]).id == id
                ==> r is Ok && final(self)@ == (DocumentView {
                next_id: old(self)@.next_id,
                tasks: old(self)@.tasks.remove(k),
            }),
    {
        proof {
            use_type_invariant(&*self);
        }
        let k = match self.position(id) {
            Some(k) => k,
            None => {
                return Err(TaskError::not_found(id));
            },
        };
        let ghost before = self@;
        proof {
            assert forall|j: int| 0 <= j < before.tasks.len() && (#[trigger] before.tasks[j]).id == id
                implies j == k by {
                if j < k {
                    assert(before.tasks[j].id < before.tasks[k as int].id);
                } else if j > k {
                    assert(before.tasks[k as int].id < before.tasks[j].id);
                }
            }
        }
        let mut tasks: Vec<Task> = Vec::new();
        std::mem::swap(&mut tasks, &mut self.tasks);
        tasks.remove(k);
        proof {
            let nt = before.tasks.remove(k as int);
            assert(task_views(tasks@) =~= nt);
            assert forall|i: int, j: int| 0 <= i < j < nt.len() implies nt[i].id < nt[j].id by {
                let a = if i < k { i } else { i + 1 };
                let b = if j < k { j } else { j + 1 };
                assert(nt[i] == before.tasks[a] && nt[j] == before.tasks[b]);
                assert(before.tasks[a].id < before.tasks[b].id);
            }
            assert forall|i: int| 0 <= i < nt.len() implies (#[trigger] nt[i]).id > 0 && valid_title(nt[i].title) by {
                let a = if i < k { i } else { i + 1 };
                assert(nt[i] == before.tasks[a]);
            }
            if nt.len() > 0 {
                let l = before.tasks.len() - 1;
                if k == l {
                    assert(nt.last() == before.tasks[l - 1]);
                    assert(before.tasks[l - 1].id < before.tasks[l].id);
                } else {
                    assert(nt.last() == before.tasks[l]);
                }
            }
        }
        let next_id = self.next_id;
        *self = Document { next_id, tasks };
        Ok(())
    }
}

/// The checklist row of a task.
pub open spec fn row_line(t: TaskView) -> Seq<char> {
    (if t.completed {
        "- [x] "@
    } else {
        "- [ ] "@
    }) + decimal(t.id as nat) + ": "@ + t.title
}

/// The rows of `tasks`, each followed by a newline.
pub open spec fn rows_text(tasks: Seq<TaskView>) -> Seq<char>
    decreases tasks.len(),
{
    if tasks.len() == 0 {
        Seq::empty()
    } else {
        rows_text(tasks.drop_last()) + row_line(tasks.last()) + "\n"@
    }
}

/// The metadata line, heading and blank line.
pub open spec fn header_text(next_id: i64) -> Seq<char> {
    "<!-- rest-task-api:v1 next-id="@ + signed_decimal(next_id) + " -->\n# Tasks\n\n"@
}

/// Inserts `t` after every task whose ID is not larger (a stable insertion).
pub open spec fn insert_by_id(sorted: Seq<TaskView>, t: TaskView) -> Seq<TaskView>
    decreases sorted.len(),
{
    if sorted.len() == 0 || sorted.last().id <= t.id {
        sorted.push(t)
    } else {
        insert_by_id(sorted.drop_last(), t).push(sorted.last())
    }
}

/// `tasks` stably sorted by ascending ID.
pub open spec fn sort_by_id(tasks: Seq<TaskView>) -> Seq<TaskView>
    decreases tasks.len(),
{
    if tasks.len() == 0 {
        tasks
    } else {
        insert_by_id(sort_by_id(tasks.drop_last()), tasks.last())
    }
}

/// The text of a document: the header, then the rows in ID order.
pub open spec fn document_text(d: DocumentView) -> Seq<char> {
    header_text(d.next_id) + rows_text(sort_by_id(d.tasks))
}

fn insert_sorted<'a>(sorted: &mut Vec<&'a Task>, t: &'a Task)
    ensures
        final(sorted)@.map_values(|x: &Task| x@) == insert_by_id(
            old(sorted)@.map_values(|x: &Task| x@),
            t@,
        ),
{
    let ghost s0 = sorted@.map_values(|x: &Task| x@);
    let mut k = sorted.len();
    assert(s0.subrange(0, k as int) =~= s0);
    assert(insert_by_id(s0, t@) + s0.subrange(k as int, s0.len() as int) =~= insert_by_id(s0, t@));
    while k > 0 && sorted[k - 1].id() > t.id()
        invariant
            k <= sorted@.len(),
            sorted@.map_values(|x: &Task| x@) == s0,
            insert_by_id(s0, t@) == insert_by_id(s0.subrange(0, k as int), t@) + s0.subrange(
                k as int,
                s0.len() as int,
            ),
        decreases k,
    {
        proof {
            let p = s0.subrange(0, k as int);
            assert(p.last() == s0[k - 1]);
            assert(p.drop_last() =~= s0.subrange(0, k - 1));
            assert(insert_by_id(p, t@) == insert_by_id(s0.subrange(0, k - 1), t@).push(s0[k - 1]));
            assert(insert_by_id(s0.subrange(0, k - 1), t@).push(s0[k - 1]) + s0.subrange(
                k as int,
                s0.len() as int,
            ) =~= insert_by_id(s0.subrange(0, k - 1), t@) + s0.subrange(k - 1, s0.len() as int));
        }
        k = k - 1;
    }
    proof {
        let p = s0.subrange(0, k as int);
        if k > 0 {
            assert(p.last() == s0[k - 1]);
        }
        assert(insert_by_id(p, t@) == p.push(t@));
    }
    sorted.insert(k, t);
    assert(sorted@.map_values(|x: &Task| x@) =~= s0.subrange(0, k as int).push(t@) + s0.subrange(
        k as int,
        s0.len() as int,
    ));
}

/// Renders a document: the metadata line, heading and blank line, then one
/// row per task in ascending ID order and a single trailing newline.
pub fn serialize(document: &Document) -> (r: String)
    ensures
        r@ == document_text(document@),
{
    let ghost all = document@.tasks;
    let mut sorted: Vec<&Task> = Vec::new();
    let mut i: usize = 0;
    assert(sorted@.map_values(|x: &Task| x@) =~= sort_by_id(all.subrange(0, 0)));
    while i < document.tasks.len()
        invariant
            i <= document.tasks@.len(),
            all == document@.tasks,
            all == document.tasks@.map_values(|t: Task| t@),
            sorted@.map_values(|x: &Task| x@) == sort_by_id(all.subrange(0, i as int)),
        decreases document.tasks.len() - i,
    {
        insert_sorted(&mut sorted, &document.tasks[i]);
        assert(all.subrange(0, i + 1).drop_last() =~= all.subrange(0, i as int));
        i = i + 1;
    }
    assert(all.subrange(0, i as int) =~= all);
    let mut content = String::from_str("<!-- rest-task-api:v1 next-id=");
    content.append(signed_decimal_string(document.next_id).as_str());
    content.append(" -->\n# Tasks\n\n");
    let ghost order = sorted@.map_values(|x: &Task| x@);
    let mut j: usize = 0;
    assert(order.subrange(0, 0) =~= Seq::<TaskView>::empty());
    assert(content@ =~= header_text(document.next_id) + rows_text(order.subrange(0, 0)));
    while j < sorted.len()
        invariant
            j <= sorted@.len(),
            order == sorted@.map_values(|x: &Task| x@),
            content@ == header_text(document@.next_id) + rows_text(order.subrange(0, j as int)),
        decreases sorted.len() - j,
    {
        let task = sorted[j];
        if task.completed() {
            content.append("- [x] ");
        } else {
            content.append("- [ ] ");
        }
        content.append(decimal_string(task.id() as u64).as_str());
        content.append(": ");
        content.append(task.title());
        content.append("\n");
        proof {
            let next = order.subrange(0, j + 1);
            assert(next.drop_last() =~= order.subrange(0, j as int));
            assert(next.last() == task@);
        }
        j = j + 1;
    }
    assert(order.subrange(0, j as int) =~= order);
    content
}

/// A canonical positive decimal: no sign, no leading zero, in the `i64` range.
pub open spec fn positive_integer(s: Seq<char>) -> Option<i64> {
    if s.len() > 0 && '1' <= s[0] && s[0] <= '9' && all_digits(s) && digits_value(s) <= i64::MAX {
        Some(digits_value(s) as i64)
    } else {
        None
    }
}

/// Accepts only canonical positive decimals (no leading zero, no sign), so
/// `01`, `+1`, or `0` are rejected; the error carries `message`.
pub fn parse_positive_integer(value: &[char], message: String) -> (r: Result<i64, String>)
    ensures
        positive_integer(value@) matches Some(v) ==> r == Ok::<i64, String>(v),
        positive_integer(value@) is None ==> (r matches Err(m) && m@ == message@),
{
    let canonical = value.len() > 0 && '1' <= value[0] && value[0] <= '9';
    if !canonical {
        return Err(message);
    }
    match parse_digits(value) {
        Some(v) => Ok(v),
        None => Err(message),
    }
}


/// `prefix` followed by a decimal line number.
pub open spec fn on_line(prefix: Seq<char>, line: nat) -> Seq<char> {
    prefix + decimal(line)
}

/// The marker and remainder of a checklist row.
pub open spec fn row_marker(row: Seq<char>) -> Option<(bool, Seq<char>)> {
    if has_prefix(row, "- [ ] "@) {
        Some((false, row.subrange(6, row.len() as int)))
    } else if has_prefix(row, "- [x] "@) {
        Some((true, row.subrange(6, row.len() as int)))
    } else {
        None
    }
}

/// The outcome of parsing one row on `line`, after a row with ID `previous`.
pub open spec fn row_outcome(row: Seq<char>, line: nat, previous: i64) -> Result<TaskView, Seq<char>> {
    match row_marker(row) {
        None => Err(on_line("invalid checklist row on line "@, line)),
        Some((completed, rest)) => match split_once_str(rest, ": "@) {
            None => Err(on_line("invalid checklist row on line "@, line)),
            Some((id_text, title)) => match positive_integer(id_text) {
                None => Err(on_line("invalid task ID on line "@, line)),
                Some(id) => if id <= previous {
                    Err("task IDs must be positive, unique, and ordered"@)
                } else {
                    match validate_title_outcome(title) {
                        Err(m) => Err(on_line("invalid title on line "@, line) + ": "@ + m),
                        Ok(_) => Ok(TaskView { id, title, completed }),
                    }
                },
            },
        },
    }
}

/// Parses the rows in order, starting on `line` after a row with ID
/// `previous`; the first malformed row is reported.
pub open spec fn rows_outcome(rows: Seq<Seq<char>>, line: nat, previous: i64) -> Result<Seq<TaskView>, Seq<char>>
    decreases rows.len(),
{
    if rows.len() == 0 {
        Ok(Seq::empty())
    } else {
        match row_outcome(rows[0], line, previous) {
            Err(m) => Err(m),
            Ok(t) => match rows_outcome(rows.drop_first(), line + 1, t.id) {
                Err(m) => Err(m),
                Ok(rest) => Ok(seq![t] + rest),
            },
        }
    }
}

/// The metadata of the first line: the version and next-id texts.
pub open spec fn metadata_parts(line: Seq<char>) -> Option<(Seq<char>, Seq<char>)> {
    let p = "<!-- rest-task-api:v"@;
    if has_prefix(line, p) {
        let after = line.subrange(p.len() as int, line.len() as int);
        if has_suffix(after, " -->"@) {
            split_once_str(after.subrange(0, after.len() - 4), " next-id="@)
        } else {
            None
        }
    } else {
        None
    }
}

/// The ID of the last task, or `0` when there is none.
pub open spec fn last_id(tasks: Seq<TaskView>) -> i64 {
    if tasks.len() == 0 {
        0
    } else {
        tasks.last().id
    }
}

/// The document the parsed rows make with `next_id`, which must exceed every ID.
pub open spec fn finish_rows(rows: Result<Seq<TaskView>, Seq<char>>, next_id: i64) -> Result<DocumentView, Seq<char>> {
    match rows {
        Err(m) => Err(m),
        Ok(tasks) => if next_id <= last_id(tasks) {
            Err("next-id must be greater than every task ID"@)
        } else {
            Ok(DocumentView { next_id, tasks })
        },
    }
}

/// The outcome of parsing the text of a store.
pub open spec fn text_outcome(text: Seq<char>) -> Result<DocumentView, Seq<char>> {
    if !(text.len() > 0 && text.last() == '\n') {
        Err("Markdown store must end with one newline"@)
    } else {
        let lines = split_char(text.drop_last(), '\n');
        if lines.len() < 3 || lines[1] != "# Tasks"@ || lines[2].len() != 0 {
            Err("Markdown store has an invalid header"@)
        } else {
            match metadata_parts(lines[0]) {
                None => Err("Markdown store has invalid metadata"@),
                Some((version, next_text)) => if version != "1"@ {
                    Err("unsupported Markdown store version "@ + debug_str(version))
                } else {
                    match positive_integer(next_text) {
                        None => Err("Markdown store has invalid next-id"@),
                        Some(next_id) => finish_rows(
                            rows_outcome(lines.subrange(3, lines.len() as int), 4, 0),
                            next_id,
                        ),
                    }
                },
            }
        }
    }
}

/// The outcome of parsing the bytes of a store.
pub open spec fn document_outcome(content: Seq<u8>) -> Result<DocumentView, Seq<char>> {
    if content.len() == 0 {
        Err("Markdown store is empty"@)
    } else if !valid_utf8(content) {
        Err("Markdown store is not valid UTF-8"@)
    } else {
        text_outcome(decode_utf8(content))
    }
}

fn line_message(prefix: &str, line: usize) -> (r: String)
    ensures
        r@ == on_line(prefix@, line as nat),
{
    let mut m = String::from_str(prefix);
    m.append(decimal_string(line as u64).as_str());
    m
}

fn parse_row(row: &[char], line: usize, previous: i64) -> (r: Result<Task, String>)
    requires
        previous >= 0,
    ensures
        row_outcome(row@, line as nat, previous) matches Ok(t) ==> (r matches Ok(x) && x@ == t),
        row_outcome(row@, line as nat, previous) matches Err(m) ==> (r matches Err(x) && x@ == m),
{
    proof {
        reveal_strlit("- [ ] ");
        reveal_strlit("- [x] ");
    }
    let (completed, rest) = if starts_with(row, "- [ ] ") {
        (false, slice_chars(row, 6, row.len()))
    } else if starts_with(row, "- [x] ") {
        (true, slice_chars(row, 6, row.len()))
    } else {
        return Err(line_message("invalid checklist row on line ", line));
    };
    let (id_text, title) = match split_once_pattern(rest.as_slice(), ": ") {
        Some(parts) => parts,
        None => {
            return Err(line_message("invalid checklist row on line ", line));
        },
    };
    let id = parse_positive_integer(id_text.as_slice(), line_message("invalid task ID on line ", line))?;
    if id <= previous {
        return Err(String::from_str("task IDs must be positive, unique, and ordered"));
    }
    let title = string_from_chars(title.as_slice());
    if let Err(error) = validate_title(title.as_str()) {
        let mut message = line_message("invalid title on line ", line);
        message.append(": ");
        match error.validation_details() {
            Some((_, m)) => message.append(m),
            None => {},
        }
        return Err(message);
    }
    match Task::from_parts(id, title.as_str(), completed) {
        Ok(task) => Ok(task),
        Err(_) => Err(line_message("invalid task on line ", line)),
    }
}

/// Parses the whole file as untrusted text. Every structural rule (final
/// newline, header line, metadata comment, version, checklist markers,
/// positive and strictly increasing IDs, valid titles, next-id greater than
/// every ID) is checked; a violation is reported with its message.
pub fn parse_document(content: Vec<u8>) -> (r: Result<Document, String>)
    ensures
        document_outcome(content@) matches Ok(d) ==> (r matches Ok(x) && x@ == d),
        document_outcome(content@) matches Err(m) ==> (r matches Err(x) && x@ == m),
{
    proof {
        reveal_strlit("\n");
        reveal_strlit("<!-- rest-task-api:v");
        reveal_strlit(" -->");
    }
    if content.len() == 0 {
        return Err(String::from_str("Markdown store is empty"));
    }
    let ghost bytes = content@;
    let text = match utf8_string(content) {
        Some(text) => text,
        None => {
            return Err(String::from_str("Markdown store is not valid UTF-8"));
        },
    };
    let chars = chars_of(text.as_str());
    proof {
        if chars@.len() > 0 && chars@.last() == '\n' {
            assert(chars@.subrange(chars@.len() - 1, chars@.len() as int) =~= "\n"@);
        }
    }
    if !ends_with(chars.as_slice(), "\n") {
        return Err(String::from_str("Markdown store must end with one newline"));
    }
    proof {
        assert(has_suffix(chars@, "\n"@) ==> chars@.last() == '\n') by {
            if has_suffix(chars@, "\n"@) {
                assert(chars@.subrange(chars@.len() - 1, chars@.len() as int)[0] == chars@.last());
            }
        }
    }
    let body = slice_chars(chars.as_slice(), 0, chars.len() - 1);
    assert(body@ =~= chars@.drop_last());
    let lines = split_chars(body.as_slice(), '\n');
    let ghost ls = lines@.map_values(|l: Vec<char>| l@);
    if lines.len() < 3 {
        return Err(String::from_str("Markdown store has an invalid header"));
    }
    assert(ls[1] == lines@[1]@ && ls[2] == lines@[2]@ && ls[0] == lines@[0]@);
    let heading = string_from_chars(lines[1].as_slice());
    if !crate::rest::json::string_eq(heading.as_str(), "# Tasks") || lines[2].len() != 0 {
        return Err(String::from_str("Markdown store has an invalid header"));
    }
    let first = lines[0].as_slice();
    if !starts_with(first, "<!-- rest-task-api:v") {
        return Err(String::from_str("Markdown store has invalid metadata"));
    }
    let after = slice_chars(first, 20, first.len());
    if !ends_with(after.as_slice(), " -->") {
        return Err(String::from_str("Markdown store has invalid metadata"));
    }
    let metadata = slice_chars(after.as_slice(), 0, after.len() - 4);
    let (version, next_text) = match split_once_pattern(metadata.as_slice(), " next-id=") {
        Some(parts) => parts,
        None => {
            return Err(String::from_str("Markdown store has invalid metadata"));
        },
    };
    let version_text = string_from_chars(version.as_slice());
    if !crate::rest::json::string_eq(version_text.as_str(), "1") {
        let mut message = String::from_str("unsupported Markdown store version ");
        message.append(debug_quoted(version_text.as_str()).as_str());
        return Err(message);
    }
    let next_id = parse_positive_integer(
        next_text.as_slice(),
        String::from_str("Markdown store has invalid next-id"),
    )?;
    let mut tasks: Vec<Task> = Vec::new();
    let mut previous: i64 = 0;
    let mut index: usize = 3;
    let ghost rows = ls.subrange(3, ls.len() as int);
    assert(ls.subrange(3, ls.len() as int) =~= rows);
    assert(tasks@.map_values(|t: Task| t@) =~= Seq::<TaskView>::empty());
    assert(document_outcome(bytes) == finish_rows(rows_outcome(rows, 4, 0), next_id));
    while index < lines.len()
        invariant
            3 <= index <= lines@.len(),
            ls == lines@.map_values(|l: Vec<char>| l@),
            rows == ls.subrange(3, ls.len() as int),
            previous == last_id(tasks@.map_values(|t: Task| t@)),
            previous >= 0,
            bytes == content@,
            document_outcome(bytes) == finish_rows(rows_outcome(rows, 4, 0), next_id),
            rows_outcome(rows, 4, 0) == match rows_outcome(ls.subrange(index as int, ls.len() as int), (index + 1) as nat, previous) {
                Err(m) => Err(m),
                Ok(rest) => Ok(tasks@.map_values(|t: Task| t@) + rest),
            },
        decreases lines.len() - index,
    {
        let ghost rest = ls.subrange(index as int, ls.len() as int);
        assert(rest[0] == lines@[index as int]@);
        assert(rest.drop_first() =~= ls.subrange(index + 1, ls.len() as int));
        let task = match parse_row(lines[index].as_slice(), index + 1, previous) {
            Ok(task) => task,
            Err(message) => {
                assert(rows_outcome(rest, (index + 1) as nat, previous) == Err::<Seq<TaskView>, Seq<char>>(message@));
                return Err(message);
            },
        };
        let ghost tv = task@;
        let ghost before = tasks@.map_values(|t: Task| t@);
        previous = task.id();
        tasks.push(task);
        proof {
            assert(tasks@.map_values(|t: Task| t@) =~= before.push(tv));
            match rows_outcome(rest.drop_first(), (index + 2) as nat, tv.id) {
                Ok(r) => {
                    assert(before + (seq![tv] + r) =~= before.push(tv) + r);
                },
                Err(_) => {},
            }
        }
        index = index + 1;
    }
    proof {
        assert(ls.subrange(index as int, ls.len() as int) =~= Seq::<Seq<char>>::empty());
        assert(tasks@.map_values(|t: Task| t@) + Seq::<TaskView>::empty() =~= tasks@.map_values(|t: Task| t@));
    }
    if next_id <= previous {
        return Err(String::from_str("next-id must be greater than every task ID"));
    }
    proof {
        lemma_rows_outcome_well_formed(rows, 4, 0);
    }
    Ok(Document { next_id, tasks })
}


/// A document as the store keeps it: positive, strictly increasing IDs,
/// titles in stored form, and a next ID above every task ID.
pub open spec fn well_formed_document(d: DocumentView) -> bool {
    &&& forall|i: int| 0 <= i < d.tasks.len() ==> (#[trigger] d.tasks[i]).id > 0 && valid_title(d.tasks[i].title)
    &&& forall|i: int, j: int| 0 <= i < j < d.tasks.len() ==> d.tasks[i].id < d.tasks[j].id
    &&& d.next_id > last_id(d.tasks)
}

/// Whether the IDs of `ts` strictly increase.
pub open spec fn ids_increasing(ts: Seq<TaskView>) -> bool {
    forall|i: int, j: int| 0 <= i < j < ts.len() ==> ts[i].id < ts[j].id
}

spec fn metadata_line(next_id: i64) -> Seq<char> {
    "<!-- rest-task-api:v1 next-id="@ + signed_decimal(next_id) + " -->"@
}

spec fn row_lines(ts: Seq<TaskView>) -> Seq<Seq<char>> {
    ts.map_values(|t: TaskView| row_line(t))
}

spec fn document_lines(next_id: i64, ts: Seq<TaskView>) -> Seq<Seq<char>> {
    seq![metadata_line(next_id), "# Tasks"@, Seq::<char>::empty()] + row_lines(ts)
}

proof fn lemma_sorted_sort(ts: Seq<TaskView>)
    requires
        ids_increasing(ts),
    ensures
        sort_by_id(ts) == ts,
    decreases ts.len(),
{
    if ts.len() > 0 {
        let p = ts.drop_last();
        assert forall|i: int, j: int| 0 <= i < j < p.len() implies p[i].id < p[j].id by {
            assert(p[i] == ts[i] && p[j] == ts[j]);
        }
        lemma_sorted_sort(p);
        if p.len() > 0 {
            assert(p.last() == ts[ts.len() - 2]);
        }
        assert(p.push(ts.last()) =~= ts);
    }
}

proof fn lemma_text_lines(next_id: i64, ts: Seq<TaskView>)
    ensures
        header_text(next_id) + rows_text(ts) == join_with(document_lines(next_id, ts), '\n') + "\n"@,
    decreases ts.len(),
{
    reveal_strlit("\n");
    if ts.len() == 0 {
        reveal_strlit(" -->\n# Tasks\n\n");
        reveal_strlit(" -->");
        reveal_strlit("# Tasks");
        let h = seq![metadata_line(next_id), "# Tasks"@, Seq::<char>::empty()];
        assert(document_lines(next_id, ts) =~= h);
        assert(h.drop_first().drop_first() =~= seq![Seq::<char>::empty()]);
        assert(join_with(h.drop_first().drop_first(), '\n') == Seq::<char>::empty());
        assert(h.drop_first()[0] == "# Tasks"@);
        assert(join_with(h.drop_first(), '\n') =~= "# Tasks"@ + seq!['\n']);
        assert(header_text(next_id) + rows_text(ts) =~= join_with(h, '\n') + "\n"@);
    } else {
        let p = ts.drop_last();
        lemma_text_lines(next_id, p);
        let lp = document_lines(next_id, p);
        lemma_join_push(lp, row_line(ts.last()), '\n');
        assert(lp.push(row_line(ts.last())) =~= document_lines(next_id, ts));
        assert(header_text(next_id) + rows_text(ts) =~= join_with(lp, '\n') + "\n"@ + row_line(ts.last()) + "\n"@);
    }
}

proof fn lemma_char_error_none(t: Seq<char>)
    requires
        char_error(t) is None,
    ensures
        forall|i: int| 0 <= i < t.len() ==> !is_line_break(#[trigger] t[i]),
    decreases t.len(),
{
    if t.len() > 0 {
        lemma_char_error_none(t.drop_first());
        assert forall|i: int| 0 <= i < t.len() implies !is_line_break(#[trigger] t[i]) by {
            if i > 0 {
                assert(t[i] == t.drop_first()[i - 1]);
            }
        }
    }
}

proof fn lemma_valid_title_one_line(title: Seq<char>)
    requires
        valid_title(title),
    ensures
        forall|i: int| 0 <= i < title.len() ==> #[trigger] title[i] != '\n',
{
    assert(trim(title) == title);
    lemma_char_error_none(title);
    assert forall|i: int| 0 <= i < title.len() implies #[trigger] title[i] != '\n' by {
        assert(!is_line_break(title[i]));
    }
}

proof fn lemma_decimal_digits(n: nat)
    ensures
        forall|i: int| 0 <= i < decimal(n).len() ==> is_digit(#[trigger] decimal(n)[i]),
{
    lemma_decimal(n);
}

proof fn lemma_no_newline(s: Seq<char>)
    requires
        forall|i: int| 0 <= i < s.len() ==> #[trigger] s[i] != '\n',
    ensures
        find_char(s, '\n') < 0,
{
    lemma_find_char_at(s, '\n', s.len() as int);
}

proof fn lemma_lines_one_line(next_id: i64, ts: Seq<TaskView>)
    requires
        next_id > 0,
        forall|i: int| 0 <= i < ts.len() ==> (#[trigger] ts[i]).id > 0 && valid_title(ts[i].title),
    ensures
        forall|i: int| 0 <= i < document_lines(next_id, ts).len() ==> find_char(
            #[trigger] document_lines(next_id, ts)[i],
            '\n',
        ) < 0,
{
    reveal_strlit("<!-- rest-task-api:v1 next-id=");
    reveal_strlit(" -->");
    reveal_strlit("# Tasks");
    reveal_strlit("- [ ] ");
    reveal_strlit("- [x] ");
    reveal_strlit(": ");
    let ls = document_lines(next_id, ts);
    assert forall|i: int| 0 <= i < ls.len() implies find_char(#[trigger] ls[i], '\n') < 0 by {
        if i == 0 {
            let m = metadata_line(next_id);
            lemma_decimal_digits(next_id as nat);
            let a = "<!-- rest-task-api:v1 next-id="@;
            let d = decimal(next_id as nat);
            assert forall|k: int| 0 <= k < m.len() implies #[trigger] m[k] != '\n' by {
                if k >= a.len() && k < a.len() + d.len() {
                    assert(m[k] == d[k - a.len()]);
                }
            }
            lemma_no_newline(m);
        } else if i == 1 {
            lemma_no_newline("# Tasks"@);
        } else if i == 2 {
            lemma_no_newline(Seq::<char>::empty());
        } else {
            let t = ts[i - 3];
            assert(ls[i] == row_line(t));
            lemma_decimal_digits(t.id as nat);
            lemma_valid_title_one_line(t.title);
            let r = row_line(t);
            let d = decimal(t.id as nat);
            assert forall|k: int| 0 <= k < r.len() implies #[trigger] r[k] != '\n' by {
                if 6 <= k < 6 + d.len() {
                    assert(r[k] == d[k - 6]);
                } else if k >= 8 + d.len() {
                    assert(r[k] == t.title[k - 8 - d.len()]);
                }
            }
            lemma_no_newline(r);
        }
    }
}

proof fn lemma_positive_decimal(n: i64)
    requires
        n > 0,
    ensures
        positive_integer(decimal(n as nat)) == Some(n),
{
    lemma_decimal(n as nat);
    let d = decimal(n as nat);
    assert(is_digit(d[0]));
}

proof fn lemma_metadata(next_id: i64)
    requires
        next_id > 0,
    ensures
        metadata_parts(metadata_line(next_id)) == Some(("1"@, decimal(next_id as nat))),
{
    reveal_strlit("<!-- rest-task-api:v1 next-id=");
    reveal_strlit("<!-- rest-task-api:v");
    reveal_strlit(" -->");
    reveal_strlit(" next-id=");
    reveal_strlit("1");
    let d = decimal(next_id as nat);
    let m = metadata_line(next_id);
    let p = "<!-- rest-task-api:v"@;
    assert(m.subrange(0, p.len() as int) =~= p);
    let after = m.subrange(p.len() as int, m.len() as int);
    assert(after =~= "1"@ + " next-id="@ + d + " -->"@);
    assert(after.subrange(after.len() - 4, after.len() as int) =~= " -->"@);
    let inner = after.subrange(0, after.len() - 4);
    assert(inner =~= "1"@ + " next-id="@ + d);
    lemma_find_str_after("1"@, " next-id="@, d);
    assert(inner.subrange(0, 1) =~= "1"@);
    assert(inner.subrange(10, inner.len() as int) =~= d);
}

proof fn lemma_row(t: TaskView, line: nat, previous: i64)
    requires
        t.id > 0,
        t.id > previous,
        valid_title(t.title),
    ensures
        row_outcome(row_line(t), line, previous) == Ok::<TaskView, Seq<char>>(t),
{
    reveal_strlit("- [ ] ");
    reveal_strlit("- [x] ");
    reveal_strlit(": ");
    let d = decimal(t.id as nat);
    let r = row_line(t);
    let rest = d + ": "@ + t.title;
    if t.completed {
        assert(r.subrange(0, 6)[3] != "- [ ] "@[3]);
        assert(r.subrange(0, 6) =~= "- [x] "@);
    } else {
        assert(r.subrange(0, 6) =~= "- [ ] "@);
    }
    assert(r.subrange(6, r.len() as int) =~= rest);
    lemma_decimal_digits(t.id as nat);
    assert forall|i: int| 0 <= i < d.len() implies #[trigger] d[i] != ": "@[0] by {
        assert(is_digit(d[i]));
    }
    lemma_find_str_after(d, ": "@, t.title);
    assert(rest.subrange(0, d.len() as int) =~= d);
    assert(rest.subrange(d.len() as int + 2, rest.len() as int) =~= t.title);
    lemma_positive_decimal(t.id);
}

proof fn lemma_rows(ts: Seq<TaskView>, line: nat, previous: i64)
    requires
        ids_increasing(ts),
        forall|i: int| 0 <= i < ts.len() ==> (#[trigger] ts[i]).id > 0 && valid_title(ts[i].title),
        ts.len() > 0 ==> ts[0].id > previous,
    ensures
        rows_outcome(row_lines(ts), line, previous) == Ok::<Seq<TaskView>, Seq<char>>(ts),
    decreases ts.len(),
{
    if ts.len() > 0 {
        let rest = ts.drop_first();
        assert(row_lines(ts)[0] == row_line(ts[0]));
        assert(row_lines(ts).drop_first() =~= row_lines(rest));
        lemma_row(ts[0], line, previous);
        assert forall|i: int, j: int| 0 <= i < j < rest.len() implies rest[i].id < rest[j].id by {
            assert(rest[i] == ts[i + 1] && rest[j] == ts[j + 1]);
        }
        assert forall|i: int| 0 <= i < rest.len() implies (#[trigger] rest[i]).id > 0 && valid_title(rest[i].title) by {
            assert(rest[i] == ts[i + 1]);
        }
        if rest.len() > 0 {
            assert(rest[0] == ts[1]);
        }
        lemma_rows(rest, line + 1, ts[0].id);
        assert(seq![ts[0]] + rest =~= ts);
        assert(rows_outcome(row_lines(ts), line, previous) == match rows_outcome(row_lines(rest), line + 1, ts[0].id) {
            Err(m) => Err(m),
            Ok(r) => Ok(seq![ts[0]] + r),
        });
    } else {
        assert(row_lines(ts).len() == 0);
        assert(ts =~= Seq::<TaskView>::empty());
    }
}

/// No two tasks of `ts` share an ID.
pub open spec fn ids_distinct(ts: Seq<TaskView>) -> bool {
    forall|i: int, j: int| 0 <= i < ts.len() && 0 <= j < ts.len() && i != j ==> ts[i].id != ts[j].id
}

proof fn lemma_insert_by_id(s: Seq<TaskView>, t: TaskView)
    ensures
        forall|x: TaskView| #[trigger] insert_by_id(s, t).contains(x) <==> (s.contains(x) || x == t),
        ids_increasing(s) && (forall|k: int| 0 <= k < s.len() ==> #[trigger] s[k].id != t.id)
            ==> ids_increasing(insert_by_id(s, t)),
    decreases s.len(),
{
    let r = insert_by_id(s, t);
    if s.len() == 0 || s.last().id <= t.id {
        assert forall|x: TaskView| #[trigger] r.contains(x) <==> (s.contains(x) || x == t) by {
            if r.contains(x) {
                let k = choose|k: int| 0 <= k < r.len() && r[k] == x;
                if k < s.len() {
                    assert(s[k] == x);
                }
            }
            if s.contains(x) {
                let k = choose|k: int| 0 <= k < s.len() && s[k] == x;
                assert(r[k] == x);
            }
            if x == t {
                assert(r[s.len() as int] == x);
            }
        }
        if ids_increasing(s) && (forall|k: int| 0 <= k < s.len() ==> #[trigger] s[k].id != t.id) {
            assert forall|i: int, j: int| 0 <= i < j < r.len() implies r[i].id < r[j].id by {
                if j == s.len() {
                    assert(s.last().id != t.id);
                    if i < s.len() - 1 {
                        assert(s[i].id < s[s.len() - 1].id);
                    }
                }
            }
        }
    } else {
        let p = s.drop_last();
        lemma_insert_by_id(p, t);
        let q = insert_by_id(p, t);
        assert(r == q.push(s.last()));
        assert forall|x: TaskView| #[trigger] r.contains(x) <==> (s.contains(x) || x == t) by {
            if r.contains(x) {
                let k = choose|k: int| 0 <= k < r.len() && r[k] == x;
                if k < q.len() {
                    assert(q.contains(x));
                    if p.contains(x) {
                        let m = choose|m: int| 0 <= m < p.len() && p[m] == x;
                        assert(s[m] == x);
                    }
                } else {
                    assert(s[s.len() - 1] == x);
                }
            }
            if s.contains(x) {
                let k = choose|k: int| 0 <= k < s.len() && s[k] == x;
                if k < p.len() {
                    assert(p[k] == x);
                    assert(q.contains(x));
                    let m = choose|m: int| 0 <= m < q.len() && q[m] == x;
                    assert(r[m] == x);
                } else {
                    assert(r[q.len() as int] == x);
                }
            }
            if x == t {
                assert(q.contains(t));
                let m = choose|m: int| 0 <= m < q.len() && q[m] == t;
                assert(r[m] == x);
            }
        }
        if ids_increasing(s) && (forall|k: int| 0 <= k < s.len() ==> #[trigger] s[k].id != t.id) {
            assert(ids_increasing(p)) by {
                assert forall|i: int, j: int| 0 <= i < j < p.len() implies p[i].id < p[j].id by {
                    assert(p[i] == s[i] && p[j] == s[j]);
                }
            }
            assert forall|k: int| 0 <= k < p.len() implies #[trigger] p[k].id != t.id by {
                assert(p[k] == s[k]);
            }
            assert forall|i: int, j: int| 0 <= i < j < r.len() implies r[i].id < r[j].id by {
                if j == r.len() - 1 {
                    assert(r[j] == s.last());
                    assert(q.contains(r[i]));
                    if p.contains(r[i]) {
                        let m = choose|m: int| 0 <= m < p.len() && p[m] == r[i];
                        assert(s[m] == r[i]);
                        assert(s[m].id < s[s.len() - 1].id);
                    }
                } else {
                    assert(r[i] == q[i] && r[j] == q[j]);
                }
            }
        }
    }
}

proof fn lemma_sort_by_id(ts: Seq<TaskView>)
    ensures
        forall|x: TaskView| #[trigger] sort_by_id(ts).contains(x) <==> ts.contains(x),
        ids_distinct(ts) ==> ids_increasing(sort_by_id(ts)),
    decreases ts.len(),
{
    if ts.len() > 0 {
        let p = ts.drop_last();
        let t = ts.last();
        lemma_sort_by_id(p);
        let sp = sort_by_id(p);
        lemma_insert_by_id(sp, t);
        assert forall|x: TaskView| #[trigger] sort_by_id(ts).contains(x) <==> ts.contains(x) by {
            if p.contains(x) {
                let m = choose|m: int| 0 <= m < p.len() && p[m] == x;
                assert(ts[m] == x);
            }
            if ts.contains(x) {
                let m = choose|m: int| 0 <= m < ts.len() && ts[m] == x;
                if m < p.len() {
                    assert(p[m] == x);
                } else {
                    assert(x == t);
                }
            }
        }
        if ids_distinct(ts) {
            assert(ids_distinct(p)) by {
                assert forall|i: int, j: int|
                    0 <= i < p.len() && 0 <= j < p.len() && i != j implies p[i].id != p[j].id by {
                    assert(p[i] == ts[i] && p[j] == ts[j]);
                }
            }
            assert forall|k: int| 0 <= k < sp.len() implies #[trigger] sp[k].id != t.id by {
                assert(sp.contains(sp[k]));
                let m = choose|m: int| 0 <= m < p.len() && p[m] == sp[k];
                assert(ts[m] == p[m]);
                assert(ts[ts.len() - 1] == t);
            }
        }
    } else {
        assert forall|x: TaskView| #[trigger] sort_by_id(ts).contains(x) <==> ts.contains(x) by {}
    }
}

proof fn lemma_increasing_unique(a: Seq<TaskView>, b: Seq<TaskView>)
    requires
        ids_increasing(a),
        ids_increasing(b),
        forall|x: TaskView| #[trigger] a.contains(x) <==> b.contains(x),
    ensures
        a == b,
    decreases a.len(),
{
    if a.len() == 0 {
        if b.len() > 0 {
            assert(b.contains(b[0]));
            assert(a.contains(b[0]));
        }
        assert(a =~= b);
    } else {
        assert(a.contains(a.last()));
        assert(b.contains(a.last()));
        assert(b.len() > 0);
        assert(b.contains(b.last()));
        assert(a.contains(b.last()));
        let i = choose|i: int| 0 <= i < b.len() && b[i] == a.last();
        let j = choose|j: int| 0 <= j < a.len() && a[j] == b.last();
        if a.last() != b.last() {
            assert(i != b.len() - 1);
            assert(b[i].id < b[b.len() - 1].id);
            assert(j != a.len() - 1);
            assert(a[j].id < a[a.len() - 1].id);
        }
        assert(a.last() == b.last());
        let pa = a.drop_last();
        let pb = b.drop_last();
        assert forall|x: TaskView| #[trigger] pa.contains(x) <==> pb.contains(x) by {
            if pa.contains(x) {
                let k = choose|k: int| 0 <= k < pa.len() && pa[k] == x;
                assert(a[k] == x);
                assert(a[k].id < a[a.len() - 1].id);
                assert(a.contains(x));
                assert(b.contains(x));
                let m = choose|m: int| 0 <= m < b.len() && b[m] == x;
                if m == b.len() - 1 {
                    assert(x == a.last());
                }
                assert(pb[m] == x);
            }
            if pb.contains(x) {
                let k = choose|k: int| 0 <= k < pb.len() && pb[k] == x;
                assert(b[k] == x);
                assert(b[k].id < b[b.len() - 1].id);
                assert(a.contains(x));
                let m = choose|m: int| 0 <= m < a.len() && a[m] == x;
                if m == a.len() - 1 {
                    assert(x == b.last());
                }
                assert(pa[m] == x);
            }
        }
        assert forall|i: int, j: int| 0 <= i < j < pa.len() implies pa[i].id < pa[j].id by {
            assert(pa[i] == a[i] && pa[j] == a[j]);
        }
        assert forall|i: int, j: int| 0 <= i < j < pb.len() implies pb[i].id < pb[j].id by {
            assert(pb[i] == b[i] && pb[j] == b[j]);
        }
        lemma_increasing_unique(pa, pb);
        assert(a =~= pa.push(a.last()));
        assert(b =~= pb.push(b.last()));
    }
}

proof fn lemma_repeated_count(s: Seq<TaskView>, i: int, j: int)
    requires
        0 <= i < s.len(),
        0 <= j < s.len(),
        i != j,
        s[i] == s[j],
    ensures
        s.to_multiset().count(s[i]) >= 2,
{
    broadcast use vstd::seq_lib::group_to_multiset_ensures, vstd::multiset::group_multiset_axioms;
    let x = s[i];
    let r = s.remove(i);
    let k = if j < i { j } else { j - 1 };
    assert(r[k] == s[j]);
    assert(r.contains(x));
    assert(s.contains(x));
    assert(r.to_multiset() == s.to_multiset().remove(x));
    assert(r.to_multiset().count(x) > 0);
    assert(s.to_multiset().count(x) > 0);
    assert(s.to_multiset().remove(x).count(x) == s.to_multiset().count(x) - 1);
}

proof fn lemma_count_repeats(s: Seq<TaskView>, x: TaskView)
    requires
        s.to_multiset().count(x) >= 2,
    ensures
        exists|i: int, j: int| 0 <= i < s.len() && 0 <= j < s.len() && i != j && s[i] == x && s[j] == x,
{
    broadcast use vstd::seq_lib::group_to_multiset_ensures, vstd::multiset::group_multiset_axioms;
    assert(s.contains(x));
    let i = choose|i: int| 0 <= i < s.len() && s[i] == x;
    let r = s.remove(i);
    assert(r.to_multiset() == s.to_multiset().remove(x));
    assert(s.to_multiset().remove(x).count(x) == s.to_multiset().count(x) - 1);
    assert(r.to_multiset().count(x) > 0);
    assert(r.contains(x));
    let k = choose|k: int| 0 <= k < r.len() && r[k] == x;
    if k < i {
        assert(s[k] == x);
    } else {
        assert(s[k + 1] == x);
    }
}

/// A save does not depend on the order tasks are held in: two documents with
/// the same next ID whose tasks are the same tasks with distinct IDs, in any
/// order, render to the same text.
pub proof fn law_serialize_ignores_order(d1: DocumentView, d2: DocumentView)
    requires
        d1.next_id == d2.next_id,
        d1.tasks.to_multiset() == d2.tasks.to_multiset(),
        ids_distinct(d1.tasks),
    ensures
        document_text(d1) == document_text(d2),
{
    broadcast use vstd::seq_lib::group_to_multiset_ensures;
    let a = d1.tasks;
    let b = d2.tasks;
    assert forall|x: TaskView| #[trigger] a.contains(x) <==> b.contains(x) by {
        assert(a.contains(x) <==> a.to_multiset().count(x) > 0);
        assert(b.contains(x) <==> b.to_multiset().count(x) > 0);
    }
    assert(ids_distinct(b)) by {
        assert forall|i: int, j: int| 0 <= i < b.len() && 0 <= j < b.len() && i != j implies b[i].id
            != b[j].id by {
            if b[i].id == b[j].id {
                if b[i] == b[j] {
                    lemma_repeated_count(b, i, j);
                    lemma_count_repeats(a, b[i]);
                } else {
                    assert(b.contains(b[i]) && b.contains(b[j]));
                    assert(a.contains(b[i]) && a.contains(b[j]));
                    let p = choose|p: int| 0 <= p < a.len() && a[p] == b[i];
                    let q = choose|q: int| 0 <= q < a.len() && a[q] == b[j];
                }
            }
        }
    }
    lemma_sort_by_id(a);
    lemma_sort_by_id(b);
    lemma_increasing_unique(sort_by_id(a), sort_by_id(b));
}

/// Reading back what was written: the bytes of the rendered text of a
/// well-formed document parse to that same document, so a load after a save
/// sees exactly what was saved and saving it again writes the same bytes.
pub proof fn law_parse_serialize(d: DocumentView)
    requires
        well_formed_document(d),
    ensures
        document_outcome(encode_utf8(document_text(d))) == Ok::<DocumentView, Seq<char>>(d),
{
    reveal_strlit("\n");
    reveal_strlit("1");
    reveal_strlit("# Tasks");
    let ts = d.tasks;
    let n = d.next_id;
    assert(n > 0);
    lemma_sorted_sort(ts);
    lemma_text_lines(n, ts);
    let ls = document_lines(n, ts);
    let text = document_text(d);
    let joined = join_with(ls, '\n');
    assert(text == joined + "\n"@);
    assert(text.len() > 0 && text.last() == '\n');
    assert(text.drop_last() =~= joined);
    encode_utf8_valid_utf8(text);
    encode_utf8_decode_utf8(text);
    let bytes = encode_utf8(text);
    assert(bytes.len() > 0);
    lemma_lines_one_line(n, ts);
    lemma_split_join(ls, '\n');
    assert(split_char(text.drop_last(), '\n') == ls);
    assert(ls[1] == "# Tasks"@);
    assert(ls[2].len() == 0);
    lemma_metadata(n);
    assert(signed_decimal(n) == decimal(n as nat));
    lemma_positive_decimal(n);
    assert(ls.subrange(3, ls.len() as int) =~= row_lines(ts));
    if ts.len() > 0 {
        assert(ts[0].id > 0);
    }
    lemma_rows(ts, 4, 0);
}


proof fn lemma_row_outcome_ok(row: Seq<char>, line: nat, previous: i64)
    ensures
        row_outcome(row, line, previous) matches Ok(t) ==> t.id > previous && valid_title(t.title),
{
}

proof fn lemma_rows_outcome_well_formed(rows: Seq<Seq<char>>, line: nat, previous: i64)
    requires
        previous >= 0,
    ensures
        rows_outcome(rows, line, previous) matches Ok(ts) ==> ids_increasing(ts) && (forall|i: int|
            0 <= i < ts.len() ==> (#[trigger] ts[i]).id > previous && valid_title(ts[i].title)),
    decreases rows.len(),
{
    if rows.len() > 0 {
        lemma_row_outcome_ok(rows[0], line, previous);
        match row_outcome(rows[0], line, previous) {
            Ok(t) => {
                lemma_rows_outcome_well_formed(rows.drop_first(), line + 1, t.id);
                match rows_outcome(rows.drop_first(), line + 1, t.id) {
                    Ok(rest) => {
                        let ts = seq![t] + rest;
                        assert forall|i: int| 0 <= i < ts.len() implies (#[trigger] ts[i]).id > previous
                            && valid_title(ts[i].title) by {
                            if i > 0 {
                                assert(ts[i] == rest[i - 1]);
                            }
                        }
                        assert forall|i: int, j: int| 0 <= i < j < ts.len() implies ts[i].id < ts[j].id by {
                            assert(ts[j] == rest[j - 1]);
                            if i > 0 {
                                assert(ts[i] == rest[i - 1]);
                            }
                        }
                    },
                    Err(_) => {},
                }
            },
            Err(_) => {},
        }
    }
}


proof fn lemma_filter_increasing(ts: Seq<TaskView>, p: spec_fn(TaskView) -> bool)
    requires
        ids_increasing(ts),
    ensures
        ids_increasing(ts.filter(p)),
        forall|i: int| 0 <= i < ts.filter(p).len() ==> exists|k: int| 0 <= k < ts.len() && #[trigger] ts.filter(p)[i] == ts[k],
    decreases ts.len(),
{
    reveal(Seq::filter);
    if ts.len() > 0 {
        let d = ts.drop_last();
        assert forall|i: int, j: int| 0 <= i < j < d.len() implies d[i].id < d[j].id by {
            assert(d[i] == ts[i] && d[j] == ts[j]);
        }
        lemma_filter_increasing(d, p);
        let f = d.filter(p);
        if p(ts.last()) {
            let g = f.push(ts.last());
            assert(ts.filter(p) == g);
            assert forall|i: int, j: int| 0 <= i < j < g.len() implies g[i].id < g[j].id by {
                if j == g.len() - 1 {
                    assert(g[i] == f[i]);
                    let k = choose|k: int| 0 <= k < d.len() && f[i] == d[k];
                    assert(d[k] == ts[k]);
                    assert(ts[k].id < ts[ts.len() - 1].id);
                } else {
                    assert(g[i] == f[i] && g[j] == f[j]);
                }
            }
            assert forall|i: int| 0 <= i < g.len() implies exists|k: int| 0 <= k < ts.len() && #[trigger] g[i] == ts[k] by {
                if i == g.len() - 1 {
                    assert(g[i] == ts[ts.len() - 1]);
                } else {
                    assert(g[i] == f[i]);
                    let k = choose|k: int| 0 <= k < d.len() && f[i] == d[k];
                    assert(d[k] == ts[k]);
                }
            }
        } else {
            assert(ts.filter(p) == f);
            assert forall|i: int| 0 <= i < f.len() implies exists|k: int| 0 <= k < ts.len() && #[trigger] f[i] == ts[k] by {
                let k = choose|k: int| 0 <= k < d.len() && f[i] == d[k];
                assert(d[k] == ts[k]);
            }
        }
    }
}

/// Listing keeps ascending ID order: whatever the filter, the tasks a
/// well-formed document lists come in strictly increasing ID order.
pub proof fn law_list_ascending(d: DocumentView, filter: TaskFilter)
    requires
        well_formed_document(d),
    ensures
        ids_increasing(filtered(d.tasks, filter)),
{
    lemma_filter_increasing(d.tasks, |t: TaskView| filter_keeps(filter, t));
}

/// An unfiltered listing is every task, and the completed and pending
/// listings split the tasks between them.
pub proof fn law_filter_partition(tasks: Seq<TaskView>)
    ensures
        filtered(tasks, TaskFilter { completed: None }) == tasks,
        filtered(tasks, TaskFilter { completed: Some(true) }).len() + filtered(
            tasks,
            TaskFilter { completed: Some(false) },
        ).len() == tasks.len(),
    decreases tasks.len(),
{
    reveal(Seq::filter);
    if tasks.len() > 0 {
        law_filter_partition(tasks.drop_last());
        assert(tasks.drop_last().push(tasks.last()) =~= tasks);
    } else {
        assert(filtered(tasks, TaskFilter { completed: None }) =~= tasks);
    }
}

/// IDs are never reused: the next ID of a well-formed document belongs to no
/// stored task, and it stays above every stored ID.
pub proof fn law_next_id_fresh(d: DocumentView)
    requires
        well_formed_document(d),
    ensures
        !has_task(d.tasks, d.next_id),
        forall|k: int| 0 <= k < d.tasks.len() ==> (#[trigger] d.tasks[k]).id < d.next_id,
{
    assert forall|k: int| 0 <= k < d.tasks.len() implies (#[trigger] d.tasks[k]).id < d.next_id by {
        if k < d.tasks.len() - 1 {
            assert(d.tasks[k].id < d.tasks[d.tasks.len() - 1].id);
        }
    }
}


proof fn lemma_positive_canonical(s: Seq<char>)
    requires
        positive_integer(s) is Some,
    ensures
        s == decimal(positive_integer(s)->Some_0 as nat),
        positive_integer(s)->Some_0 >= 1,
{
    lemma_decimal_canonical(s);
}

proof fn lemma_row_canonical(row: Seq<char>, line: nat, previous: i64)
    requires
        row_outcome(row, line, previous) is Ok,
    ensures
        row == row_line(row_outcome(row, line, previous)->Ok_0),
{
    reveal_strlit("- [ ] ");
    reveal_strlit("- [x] ");
    let t = row_outcome(row, line, previous)->Ok_0;
    let marker = if t.completed { "- [x] "@ } else { "- [ ] "@ };
    let rest = row.subrange(6, row.len() as int);
    assert(row.subrange(0, 6) == marker);
    lemma_split_once_str_parts(rest, ": "@);
    let (id_text, title) = split_once_str(rest, ": "@)->Some_0;
    lemma_positive_canonical(id_text);
    assert(rest == id_text + ": "@ + title);
    assert(row =~= marker + rest);
    assert(row =~= row_line(t));
}

proof fn lemma_rows_canonical(rows: Seq<Seq<char>>, line: nat, previous: i64)
    requires
        rows_outcome(rows, line, previous) is Ok,
    ensures
        rows == row_lines(rows_outcome(rows, line, previous)->Ok_0),
    decreases rows.len(),
{
    let ts = rows_outcome(rows, line, previous)->Ok_0;
    if rows.len() == 0 {
        assert(row_lines(ts) =~= rows);
    } else {
        let t = row_outcome(rows[0], line, previous)->Ok_0;
        lemma_row_canonical(rows[0], line, previous);
        lemma_rows_canonical(rows.drop_first(), line + 1, t.id);
        let rest = rows_outcome(rows.drop_first(), line + 1, t.id)->Ok_0;
        assert(ts == seq![t] + rest);
        assert(row_lines(ts) =~= seq![row_line(t)] + row_lines(rest));
        assert(rows =~= seq![rows[0]] + rows.drop_first());
    }
}

proof fn lemma_metadata_canonical(line: Seq<char>, next_id: i64)
    requires
        metadata_parts(line) matches Some((v, n)) && v == "1"@ && positive_integer(n) == Some(next_id),
    ensures
        line == metadata_line(next_id),
{
    reveal_strlit("<!-- rest-task-api:v1 next-id=");
    reveal_strlit("<!-- rest-task-api:v");
    reveal_strlit(" -->");
    reveal_strlit(" next-id=");
    reveal_strlit("1");
    let p = "<!-- rest-task-api:v"@;
    let after = line.subrange(p.len() as int, line.len() as int);
    let inner = after.subrange(0, after.len() - 4);
    lemma_split_once_str_parts(inner, " next-id="@);
    let (v, n) = split_once_str(inner, " next-id="@)->Some_0;
    lemma_positive_canonical(n);
    assert(after.subrange(after.len() - 4, after.len() as int) == " -->"@);
    assert(after =~= inner + " -->"@);
    assert(line.subrange(0, p.len() as int) == p);
    assert(line =~= p + after);
    assert(signed_decimal(next_id) == decimal(next_id as nat));
    assert(line =~= metadata_line(next_id));
}

/// Every accepted file is canonical: the bytes of a store that loads are
/// exactly the bytes a save of the loaded document writes, so loading and
/// saving again changes nothing, and the loaded document is well formed.
pub proof fn law_parse_canonical(bytes: Seq<u8>)
    ensures
        document_outcome(bytes) matches Ok(d) ==> well_formed_document(d) && bytes == encode_utf8(
            document_text(d),
        ),
{
    reveal_strlit("\n");
    reveal_strlit("1");
    reveal_strlit("# Tasks");
    if document_outcome(bytes) is Ok {
        let d = document_outcome(bytes)->Ok_0;
        let text = decode_utf8(bytes);
        decode_utf8_encode_utf8(bytes);
        let body = text.drop_last();
        let lines = split_char(body, '\n');
        lemma_join_split(body, '\n');
        let (version, next_text) = metadata_parts(lines[0])->Some_0;
        let n = positive_integer(next_text)->Some_0;
        let rows = lines.subrange(3, lines.len() as int);
        assert(rows_outcome(rows, 4, 0) is Ok);
        let ts = rows_outcome(rows, 4, 0)->Ok_0;
        assert(d == DocumentView { next_id: n, tasks: ts });
        lemma_rows_outcome_well_formed(rows, 4, 0);
        lemma_sorted_sort(ts);
        lemma_rows_canonical(rows, 4, 0);
        lemma_metadata_canonical(lines[0], n);
        assert(lines =~= document_lines(n, ts)) by {
            assert(lines[1] == "# Tasks"@);
            assert(lines[2] =~= Seq::<char>::empty());
            assert(lines =~= seq![lines[0], lines[1], lines[2]] + rows);
        }
        lemma_text_lines(n, ts);
        assert(text =~= body + "\n"@);
        assert(document_text(d) == text);
    }
}


/// Deleting undoes creating: once the task at `k` is removed from a
/// well-formed document, no task with its ID remains, and the next ID is
/// still above every ID that was ever stored.
pub proof fn law_deleted_is_gone(d: DocumentView, k: int)
    requires
        well_formed_document(d),
        0 <= k < d.tasks.len(),
    ensures
        !has_task(d.tasks.remove(k), d.tasks[k].id),
        well_formed_document(DocumentView { next_id: d.next_id, tasks: d.tasks.remove(k) }),
{
    let r = d.tasks.remove(k);
    assert forall|j: int| 0 <= j < r.len() implies (#[trigger] r[j]).id != d.tasks[k].id by {
        if j < k {
            assert(r[j] == d.tasks[j]);
            assert(d.tasks[j].id < d.tasks[k].id);
        } else {
            assert(r[j] == d.tasks[j + 1]);
            assert(d.tasks[k].id < d.tasks[j + 1].id);
        }
    }
    assert forall|i: int, j: int| 0 <= i < j < r.len() implies r[i].id < r[j].id by {
        let a = if i < k { i } else { i + 1 };
        let b = if j < k { j } else { j + 1 };
        assert(r[i] == d.tasks[a] && r[j] == d.tasks[b]);
    }
    assert forall|i: int| 0 <= i < r.len() implies (#[trigger] r[i]).id > 0 && valid_title(r[i].title) by {
        let a = if i < k { i } else { i + 1 };
        assert(r[i] == d.tasks[a]);
    }
    law_next_id_fresh(d);
    if r.len() > 0 {
        assert(r.last() == r[r.len() - 1]);
    }
}

} // verus!
