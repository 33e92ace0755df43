//! The SQLite row format: the expected schema, how a stored row becomes a
//! task, and how a completion flag is stored. Running the statements stays
//! with the caller that owns the connection.

use vstd::prelude::*;

use crate::rest::domain::{parts_outcome, Task, TaskFilter, TaskView};
use crate::rest::error::{is_storage, TaskError};
use crate::text::{chars_of, is_whitespace, is_ws, signed_decimal, signed_decimal_string};

verus! {

/// The exact `CREATE TABLE` statement of the `tasks` table.
pub const SCHEMA: &'static str = "CREATE TABLE tasks (\n    id INTEGER PRIMARY KEY AUTOINCREMENT,\n    title TEXT NOT NULL,\n    completed INTEGER NOT NULL CHECK (completed IN (0, 1))\n)";

/// Creates the `tasks` table when it does not exist yet.
pub const INITIALIZE_SCHEMA: &'static str = "CREATE TABLE IF NOT EXISTS tasks (\n    id INTEGER PRIMARY KEY AUTOINCREMENT,\n    title TEXT NOT NULL,\n    completed INTEGER NOT NULL CHECK (completed IN (0, 1))\n)";

/// The query for one task by ID.
pub const SELECT_TASK: &'static str = "SELECT id, title, completed FROM tasks WHERE id = ?1";

/// Inserts a new task from its title and completion flag.
pub const INSERT_TASK: &'static str = "INSERT INTO tasks (title, completed) VALUES (?1, ?2)";

/// Replaces the title and completion flag of one task.
pub const UPDATE_TASK: &'static str = "UPDATE tasks SET title = ?1, completed = ?2 WHERE id = ?3";

/// Deletes one task by ID.
pub const DELETE_TASK: &'static str = "DELETE FROM tasks WHERE id = ?1";

/// Reads back the statement that created the `tasks` table.
pub const TABLE_SQL: &'static str = "SELECT sql FROM sqlite_master WHERE type = 'table' AND name = 'tasks'";

/// `char::to_lowercase`: the characters of the Unicode lowercase mapping.
pub uninterp spec fn lower_chars(c: char) -> Seq<char>;

/// `char::to_lowercase` collected: the one to three characters `c`
/// lowercases to under Unicode's mapping, a function of `c` alone; the
/// mapping itself is not stated.
#[verifier::external_body]
fn lowercase(c: char) -> (r: Vec<char>)
    ensures
        r@ == lower_chars(c),
{
    c.to_lowercase().collect()
}

/// A statement with whitespace and semicolons dropped and every character
/// lowercased, so equivalent spellings compare equal.
pub open spec fn canonical(s: Seq<char>) -> Seq<char>
    decreases s.len(),
{
    if s.len() == 0 {
        Seq::empty()
    } else {
        let c = s.last();
        canonical(s.drop_last()) + (if is_ws(c) || c == ';' {
            Seq::empty()
        } else {
            lower_chars(c)
        })
    }
}

/// The canonical form of a statement.
pub fn canonical_sql(value: &str) -> (r: Vec<char>)
    ensures
        r@ == canonical(value@),
{
    let chars = chars_of(value);
    let mut out: Vec<char> = Vec::new();
    let mut i: usize = 0;
    while i < chars.len()
        invariant
            i <= chars@.len(),
            chars@ == value@,
            out@ == canonical(chars@.subrange(0, i as int)),
        decreases chars.len() - i,
    {
        let c = chars[i];
        proof {
            let next = chars@.subrange(0, i + 1);
            assert(next.drop_last() =~= chars@.subrange(0, i as int));
            assert(next.last() == c);
        }
        if !is_whitespace(c) && c != ';' {
            let lower = lowercase(c);
            let mut j: usize = 0;
            let ghost before = out@;
            while j < lower.len()
                invariant
                    j <= lower@.len(),
                    out@ == before + lower@.subrange(0, j as int),
                decreases lower.len() - j,
            {
                out.push(lower[j]);
                j = j + 1;
                assert(out@ =~= before + lower@.subrange(0, j as int));
            }
            assert(lower@.subrange(0, j as int) =~= lower@);
        } else {
            assert(out@ =~= out@ + Seq::<char>::empty());
        }
        i = i + 1;
    }
    assert(chars@.subrange(0, i as int) =~= chars@);
    out
}

/// Whether a stored `CREATE TABLE` statement is the expected schema, up to
/// whitespace, semicolons and letter case.
pub fn schema_matches(statement: &str) -> (r: bool)
    ensures
        r == (canonical(statement@) == canonical(SCHEMA@)),
{
    let a = canonical_sql(statement);
    let b = canonical_sql(SCHEMA);
    if a.len() != b.len() {
        return false;
    }
    let mut i: usize = 0;
    while i < a.len()
        invariant
            i <= a@.len(),
            a@.len() == b@.len(),
            a@ == canonical(statement@),
            b@ == canonical(SCHEMA@),
            forall|j: int| 0 <= j < i ==> a@[j] == b@[j],
        decreases a.len() - i,
    {
        if a[i] != b[i] {
            assert(a@[i as int] != b@[i as int]);
            return false;
        }
        i = i + 1;
    }
    assert(a@ =~= b@);
    true
}

/// How a completion flag is stored: `1` for true, `0` for false.
pub fn bool_integer(value: bool) -> (r: i64)
    ensures
        r == (if value {
            1int
        } else {
            0int
        }),
{
    if value {
        1
    } else {
        0
    }
}

/// The list query and its completion parameter for `filter`, in ascending
/// ID order.
pub fn list_statement(filter: TaskFilter) -> (r: (&'static str, Option<i64>))
    ensures
        filter.completed matches Some(c) ==> r.0@ == "SELECT id, title, completed FROM tasks WHERE completed = ?1 ORDER BY id ASC"@
            && r.1 == Some(if c { 1i64 } else { 0i64 }),
        filter.completed is None ==> r.0@ == "SELECT id, title, completed FROM tasks ORDER BY id ASC"@ && r.1 is None,
{
    match filter.completed {
        Some(value) => (
            "SELECT id, title, completed FROM tasks WHERE completed = ?1 ORDER BY id ASC",
            Some(bool_integer(value)),
        ),
        None => ("SELECT id, title, completed FROM tasks ORDER BY id ASC", None),
    }
}

/// The task a stored row `(id, title, completed)` holds: the flag must be
/// `0` or `1`, and the ID and title must form a valid task; anything else is
/// a storage error of `operation`.
pub open spec fn row_outcome(id: i64, title: Seq<char>, completed: i64) -> Result<TaskView, Seq<char>> {
    if completed != 0 && completed != 1 {
        Err("invalid completed value "@ + signed_decimal(completed) + " for task "@ + signed_decimal(id))
    } else {
        match parts_outcome(id, title) {
            Ok(_) => Ok(TaskView { id, title, completed: completed == 1 }),
            Err((_, m)) => Err(m),
        }
    }
}

/// Reading a row back inverts how a flag is stored: a valid task written
/// with the flag `1` for completed and `0` for pending reads back as the same
/// task, with its completion state, and a flag outside `0` and `1` never
/// reads as a task.
pub proof fn law_row_round_trip(t: TaskView, flag: i64)
    requires
        parts_outcome(t.id, t.title) is Ok,
    ensures
        flag == 0 ==> row_outcome(t.id, t.title, flag) == Ok::<TaskView, Seq<char>>(
            TaskView { completed: false, ..t },
        ),
        flag == 1 ==> row_outcome(t.id, t.title, flag) == Ok::<TaskView, Seq<char>>(
            TaskView { completed: true, ..t },
        ),
        row_outcome(t.id, t.title, if t.completed { 1 } else { 0 }) == Ok::<TaskView, Seq<char>>(t),
        flag != 0 && flag != 1 ==> row_outcome(t.id, t.title, flag) is Err,
{
}

/// Rebuilds a task from a stored row, so corrupt data cannot enter the core.
pub fn task_from_parts(parts: (i64, String, i64), operation: &str) -> (r: Result<Task, TaskError>)
    ensures
        row_outcome(parts.0, parts.1@, parts.2) matches Ok(t) ==> (r matches Ok(x) && x@ == t),
        row_outcome(parts.0, parts.1@, parts.2) matches Err(m) ==> (r matches Err(e) && is_storage(e, operation@)
            && e->Storage_source@ == m),
{
    let (id, title, completed) = parts;
    let completed = if completed == 0 {
        false
    } else if completed == 1 {
        true
    } else {
        let mut message = String::from_str("invalid completed value ");
        message.append(signed_decimal_string(completed).as_str());
        message.append(" for task ");
        message.append(signed_decimal_string(id).as_str());
        return Err(TaskError::storage(operation, message.as_str()));
    };
    match Task::from_parts(id, title.as_str(), completed) {
        Ok(t) => Ok(t),
        Err(error) => {
            let message = match error.validation_details() {
                Some((_, m)) => String::from_str(m),
                None => String::new(),
            };
            Err(TaskError::storage(operation, message.as_str()))
        },
    }
}

/// The result of a delete that touched `affected` rows: none means the task
/// did not exist.
pub fn delete_outcome(id: i64, affected: usize) -> (r: Result<(), TaskError>)
    ensures
        affected == 0 ==> r == Err::<(), TaskError>(TaskError::NotFound { id }),
        affected > 0 ==> r is Ok,
{
    if affected == 0 {
        return Err(TaskError::not_found(id));
    }
    Ok(())
}

} // verus!
