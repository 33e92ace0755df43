//! Task domain values and the validation rules every layer shares.
//!
//! [`Task`] keeps its fields private so a value can only exist once it has
//! passed validation, and the free `normalize_*`/`validate_*` functions are the
//! single source of truth for the title, ID, patch, and filter rules.

use vstd::prelude::*;

use crate::rest::error::{is_validation, TaskError};
use crate::rest::json::string_eq;
use crate::text::{chars_of, is_cc, is_control, lemma_trim_shape, substring, trim, trim_bounds};

verus! {

/// Maximum number of Unicode characters allowed in a trimmed title.
pub const MAX_TITLE_LENGTH: usize = 120;

/// The characters that would split a title across physical lines: ASCII line
/// breaks plus the Unicode vertical, line and paragraph separators.
pub open spec fn is_line_break(c: char) -> bool {
    c == '\n' || c == '\u{b}' || c == '\u{c}' || c == '\r' || c == '\u{1c}' || c == '\u{1d}'
        || c == '\u{1e}' || c == '\u{85}' || c == '\u{2028}' || c == '\u{2029}'
}

/// Whether `c` splits a title across physical lines.
pub fn is_physical_line_break(c: char) -> (r: bool)
    ensures
        r == is_line_break(c),
{
    c == '\n' || c == '\u{b}' || c == '\u{c}' || c == '\r' || c == '\u{1c}' || c == '\u{1d}' || c
        == '\u{1e}' || c == '\u{85}' || c == '\u{2028}' || c == '\u{2029}'
}

/// The message for the first offending character of `t`, scanning in order:
/// a line break is reported before a control character.
pub open spec fn char_error(t: Seq<char>) -> Option<Seq<char>>
    decreases t.len(),
{
    if t.len() == 0 {
        None
    } else if is_line_break(t[0]) {
        Some("title must occupy one physical line"@)
    } else if is_cc(t[0]) {
        Some("title must not contain control characters"@)
    } else {
        char_error(t.drop_first())
    }
}

/// The outcome of normalizing a title: the trimmed title, or the message of
/// the validation error on field `title`.
pub open spec fn title_outcome(title: Seq<char>) -> Result<Seq<char>, Seq<char>> {
    let t = trim(title);
    if !(1 <= t.len() <= 120) {
        Err("title must contain between 1 and 120 characters"@)
    } else {
        match char_error(t) {
            Some(m) => Err(m),
            None => Ok(t),
        }
    }
}

/// A title in its stored form: valid, and equal to its own normalization.
pub open spec fn valid_title(title: Seq<char>) -> bool {
    title_outcome(title) == Ok::<Seq<char>, Seq<char>>(title)
}

/// `r` reports the outcome `o` of a rule on field `field`.
pub open spec fn reports(r: Result<String, TaskError>, field: Seq<char>, o: Result<Seq<char>, Seq<char>>) -> bool {
    match o {
        Ok(v) => r matches Ok(s) && s@ == v,
        Err(m) => r matches Err(e) && is_validation(e, field, m),
    }
}

/// Trims a title and enforces the 1–120 character, single-line, no-control
/// rule, returning the normalized owned string.
pub fn normalize_title(title: &str) -> (r: Result<String, TaskError>)
    ensures
        reports(r, "title"@, title_outcome(title@)),
{
    let chars = chars_of(title);
    let (start, end) = trim_bounds(chars.as_slice());
    let count = end - start;
    if !(1 <= count && count <= MAX_TITLE_LENGTH) {
        return Err(TaskError::validation("title", "title must contain between 1 and 120 characters"));
    }
    let ghost t = trim(title@);
    assert(t.subrange(0, t.len() as int) =~= t);
    let mut i = start;
    while i < end
        invariant
            start <= i <= end <= chars@.len(),
            chars@ == title@,
            t == chars@.subrange(start as int, end as int),
            t == trim(title@),
            1 <= end - start <= 120,
            char_error(t) == char_error(t.subrange(i - start, t.len() as int)),
        decreases end - i,
    {
        let c = chars[i];
        let ghost rest = t.subrange(i - start, t.len() as int);
        assert(rest.len() > 0);
        assert(rest[0] == c);
        if is_physical_line_break(c) {
            return Err(TaskError::validation("title", "title must occupy one physical line"));
        }
        if is_control(c) {
            return Err(TaskError::validation("title", "title must not contain control characters"));
        }
        assert(rest.drop_first() =~= t.subrange(i + 1 - start, t.len() as int));
        i = i + 1;
    }
    assert(t.subrange(t.len() as int, t.len() as int) =~= Seq::<char>::empty());
    Ok(substring(chars.as_slice(), start, end))
}

/// Normalization is idempotent: the normalized form of an acceptable title
/// is itself a valid stored title, which normalizes to itself.
pub proof fn law_normalize_title_idempotent(title: Seq<char>)
    requires
        title_outcome(title) is Ok,
    ensures
        valid_title(title_outcome(title)->Ok_0),
{
    lemma_trim_shape(title);
}

/// The outcome of checking that a title is already in normalized form.
pub open spec fn validate_title_outcome(title: Seq<char>) -> Result<(), Seq<char>> {
    match title_outcome(title) {
        Err(m) => Err(m),
        Ok(t) => if t == title {
            Ok(())
        } else {
            Err("title must not have leading or trailing whitespace"@)
        },
    }
}

/// `r` reports the unit outcome `o` of a rule on field `field`.
pub open spec fn reports_unit(r: Result<(), TaskError>, field: Seq<char>, o: Result<(), Seq<char>>) -> bool {
    match o {
        Ok(_) => r is Ok,
        Err(m) => r matches Err(e) && is_validation(e, field, m),
    }
}

/// Confirms a title is already in normalized form: a stored title with
/// surrounding whitespace is corruption rather than something to trim.
pub fn validate_title(title: &str) -> (r: Result<(), TaskError>)
    ensures
        reports_unit(r, "title"@, validate_title_outcome(title@)),
        r is Ok <==> valid_title(title@),
{
    let normalized = normalize_title(title)?;
    if !string_eq(normalized.as_str(), title) {
        return Err(TaskError::validation("title", "title must not have leading or trailing whitespace"));
    }
    Ok(())
}

/// Rejects a non-positive task ID.
pub fn validate_id(id: i64) -> (r: Result<(), TaskError>)
    ensures
        id > 0 <==> r is Ok,
        id <= 0 ==> (r matches Err(e) && is_validation(e, "id"@, "task ID must be a positive integer"@)),
{
    if id <= 0 {
        return Err(TaskError::validation("id", "task ID must be a positive integer"));
    }
    Ok(())
}

/// A validated task: a positive `id`, a normalized `title`, and a completion flag.
#[derive(Debug, PartialEq, Eq)]
pub struct Task {
    id: i64,
    title: String,
    completed: bool,
}

/// The abstract value of a task.
pub ghost struct TaskView {
    pub id: i64,
    pub title: Seq<char>,
    pub completed: bool,
}

impl View for Task {
    type V = TaskView;

    closed spec fn view(&self) -> TaskView {
        TaskView { id: self.id, title: self.title@, completed: self.completed }
    }
}

impl Clone for Task {
    fn clone(&self) -> (r: Task)
        ensures
            r@ == self@,
    {
        proof {
            use_type_invariant(self);
        }
        Task { id: self.id, title: self.title.clone(), completed: self.completed }
    }
}

/// The outcome of building a task from parts: the ID is checked before the
/// title.
pub open spec fn parts_outcome(id: i64, title: Seq<char>) -> Result<(), (Seq<char>, Seq<char>)> {
    if id <= 0 {
        Err(("id"@, "task ID must be a positive integer"@))
    } else {
        match validate_title_outcome(title) {
            Ok(_) => Ok(()),
            Err(m) => Err(("title"@, m)),
        }
    }
}

impl Task {
    #[verifier::type_invariant]
    closed spec fn valid(self) -> bool {
        self.id > 0 && valid_title(self.title@)
    }

    /// Builds a `Task` from already-persisted parts, rejecting an invalid ID or
    /// title, so corrupt data cannot enter the core.
    pub fn from_parts(id: i64, title: &str, completed: bool) -> (r: Result<Task, TaskError>)
        ensures
            r is Ok <==> parts_outcome(id, title@) is Ok,
            r matches Ok(t) ==> t@ == (TaskView { id, title: title@, completed }),
            parts_outcome(id, title@) matches Err((f, m)) ==> (r matches Err(e)
                && is_validation(e, f, m)),
    {
        validate_id(id)?;
        validate_title(title)?;
        Ok(Task { id, title: String::from_str(title), completed })
    }

    /// The positive, repository-allocated identifier.
    pub fn id(&self) -> (r: i64)
        ensures
            r == self@.id,
            r > 0,
    {
        proof {
            use_type_invariant(self);
        }
        self.id
    }

    /// The normalized title.
    pub fn title(&self) -> (r: &str)
        ensures
            r@ == self@.title,
            valid_title(r@),
    {
        proof {
            use_type_invariant(self);
        }
        self.title.as_str()
    }

    /// Whether the task is completed.
    pub fn completed(&self) -> (r: bool)
        ensures
            r == self@.completed,
    {
        self.completed
    }
}

/// Optional completion filter for listing tasks.
#[derive(Clone, Copy, Debug, Default, PartialEq, Eq)]
pub struct TaskFilter {
    /// `Some(state)` keeps only tasks in that completion state; `None` lists all.
    pub completed: Option<bool>,
}

/// A partial update: each `Some` field is applied and each `None` field is
/// left unchanged.
#[derive(Debug, Default, PartialEq, Eq)]
pub struct TaskPatch {
    /// New title, if the caller is changing it.
    pub title: Option<String>,
    /// New completion state, if the caller is changing it.
    pub completed: Option<bool>,
}

/// The title of a patch, by its characters.
pub open spec fn patch_title(patch: TaskPatch) -> Option<Seq<char>> {
    match patch.title {
        Some(t) => Some(t@),
        None => None,
    }
}

/// The outcome of normalizing a patch: an empty update is invalid, and a
/// present title is normalized while `completed` passes through.
pub open spec fn patch_outcome(title: Option<Seq<char>>, completed: Option<bool>) -> Result<
    Option<Seq<char>>,
    (Seq<char>, Seq<char>),
> {
    if title is None && completed is None {
        Err(("update"@, "update must include title or completed"@))
    } else {
        match title {
            None => Ok(None),
            Some(t) => match title_outcome(t) {
                Ok(n) => Ok(Some(n)),
                Err(m) => Err(("title"@, m)),
            },
        }
    }
}

/// Normalizes a patch: an empty update (no fields) is invalid, and a present
/// title is normalized while `completed` passes through unchanged.
pub fn normalize_patch(patch: TaskPatch) -> (r: Result<TaskPatch, TaskError>)
    ensures
        r is Ok <==> patch_outcome(patch_title(patch), patch.completed) is Ok,
        r matches Ok(p) ==> Ok::<Option<Seq<char>>, (Seq<char>, Seq<char>)>(patch_title(p)) == patch_outcome(patch_title(patch), patch.completed)
            && p.completed == patch.completed,
        patch_outcome(patch_title(patch), patch.completed) matches Err((f, m)) ==> (r matches Err(
            e,
        ) && is_validation(e, f, m)),
{
    if patch.title.is_none() && patch.completed.is_none() {
        return Err(TaskError::validation("update", "update must include title or completed"));
    }
    let title = match &patch.title {
        Some(t) => Some(normalize_title(t.as_str())?),
        None => None,
    };
    Ok(TaskPatch { title, completed: patch.completed })
}

/// Confirms a patch is already normalized, rejecting a title that carries
/// surrounding whitespace.
pub fn validate_patch(patch: &TaskPatch) -> (r: Result<(), TaskError>)
    ensures
        r is Ok <==> patch_outcome(patch_title(*patch), patch.completed) == Ok::<
            Option<Seq<char>>,
            (Seq<char>, Seq<char>),
        >(patch_title(*patch)),
{
    let copy = TaskPatch {
        title: match &patch.title {
            Some(t) => Some(t.clone()),
            None => None,
        },
        completed: patch.completed,
    };
    let normalized = normalize_patch(copy)?;
    let same = match (&normalized.title, &patch.title) {
        (Some(a), Some(b)) => string_eq(a.as_str(), b.as_str()),
        (None, None) => true,
        _ => false,
    };
    if !same {
        return Err(TaskError::validation("title", "title must not have leading or trailing whitespace"));
    }
    Ok(())
}

/// Filters carry no rules; this keeps the layered API symmetric with the
/// title, ID, and patch normalizers.
pub fn normalize_filter(filter: TaskFilter) -> (r: TaskFilter)
    ensures
        r == filter,
{
    filter
}


/// The title a patch leaves on a task titled `current`.
pub open spec fn patched_title(patch: TaskPatch, current: Seq<char>) -> Seq<char> {
    match patch_title(patch) {
        Some(t) => t,
        None => current,
    }
}

/// The completion state a patch leaves on a task in state `current`.
pub open spec fn patched_completed(patch: TaskPatch, current: bool) -> bool {
    match patch.completed {
        Some(c) => c,
        None => current,
    }
}

/// The task `current` becomes under `patch`: a present title replaces the
/// title and a present flag replaces the completion state. The resulting
/// title must already be in stored form.
pub fn apply_patch(current: &Task, patch: &TaskPatch) -> (r: Result<Task, TaskError>)
    ensures
        validate_title_outcome(patched_title(*patch, current@.title)) is Ok ==> (r matches Ok(t) && t@ == (TaskView {
            id: current@.id,
            title: patched_title(*patch, current@.title),
            completed: patched_completed(*patch, current@.completed),
        })),
        validate_title_outcome(patched_title(*patch, current@.title)) matches Err(m) ==> (r matches Err(e)
            && is_validation(e, "title"@, m)),
{
    let completed = match patch.completed {
        Some(c) => c,
        None => current.completed(),
    };
    match &patch.title {
        Some(t) => Task::from_parts(current.id(), t.as_str(), completed),
        None => Task::from_parts(current.id(), current.title(), completed),
    }
}

} // verus!
