//! The command vocabulary of the task manager and its text presentation.

use vstd::prelude::*;

use crate::domain::{
    completed, has_id, listed, position_of, ref_views, Task, TaskError, TaskId, TaskManager,
    TaskStore, TaskView,
};
use crate::text::{decimal, decimal_string, find_char, join_with, lemma_join_push, lemma_split_join, split_char, trim};

verus! {

/// One command of the task manager.
#[derive(Debug, Clone, PartialEq, Eq)]
pub enum Command {
    /// Add a new pending task.
    Add { title: String },
    /// List stored tasks.
    List { pending_only: bool },
    /// Mark a task complete.
    Complete { id: u64 },
    /// Remove a task.
    Remove { id: u64 },
}

/// `[x] #id title` for a done task, `[ ] #id title` otherwise.
pub open spec fn task_line(t: TaskView) -> Seq<char> {
    (if t.done { "[x] #"@ } else { "[ ] #"@ }) + decimal(t.id as nat) + " "@ + t.title
}

/// The lines of `tasks`, separated by newlines.
pub open spec fn joined_lines(tasks: Seq<TaskView>) -> Seq<char>
    decreases tasks.len(),
{
    if tasks.len() == 0 {
        Seq::empty()
    } else if tasks.len() == 1 {
        task_line(tasks[0])
    } else {
        joined_lines(tasks.drop_last()) + "\n"@ + task_line(tasks.last())
    }
}

/// The output of `list`: a placeholder when nothing is listed.
pub open spec fn listing(tasks: Seq<TaskView>) -> Seq<char> {
    if tasks.len() == 0 {
        "No tasks yet."@
    } else {
        joined_lines(tasks)
    }
}

/// The checklist lines of `tasks`, in order.
pub open spec fn task_lines(tasks: Seq<TaskView>) -> Seq<Seq<char>> {
    tasks.map_values(|t: TaskView| task_line(t))
}

/// A listing has one line per listed task, in order: the text is the tasks'
/// lines joined by line breaks, so when no line holds a line break itself,
/// splitting the text at line breaks gives back exactly those lines; with no
/// task listed, the text is the placeholder.
pub proof fn law_listing_lines(tasks: Seq<TaskView>)
    ensures
        joined_lines(tasks) == join_with(task_lines(tasks), '\n'),
        tasks.len() > 0 && (forall|i: int| 0 <= i < tasks.len() ==> find_char(#[trigger] task_line(tasks[i]), '\n') < 0)
            ==> split_char(listing(tasks), '\n') == task_lines(tasks),
        tasks.len() == 0 ==> listing(tasks) == "No tasks yet."@,
    decreases tasks.len(),
{
    reveal_strlit("\n");
    if tasks.len() == 0 {
        assert(task_lines(tasks) =~= Seq::<Seq<char>>::empty());
    } else if tasks.len() == 1 {
        assert(task_lines(tasks) =~= seq![task_line(tasks[0])]);
    } else {
        law_listing_lines(tasks.drop_last());
        assert(task_lines(tasks) =~= task_lines(tasks.drop_last()).push(task_line(tasks.last())));
        lemma_join_push(task_lines(tasks.drop_last()), task_line(tasks.last()), '\n');
        assert("\n"@ =~= seq!['\n']);
    }
    if tasks.len() > 0 && (forall|i: int| 0 <= i < tasks.len() ==> find_char(#[trigger] task_line(tasks[i]), '\n') < 0) {
        let ls = task_lines(tasks);
        assert forall|i: int| 0 <= i < ls.len() implies find_char(#[trigger] ls[i], '\n') < 0 by {
            assert(ls[i] == task_line(tasks[i]));
        }
        lemma_split_join(ls, '\n');
    }
}

/// `{verb} task #{id}: {title}`.
pub open spec fn report(verb: Seq<char>, t: TaskView) -> Seq<char> {
    verb + " task #"@ + decimal(t.id as nat) + ": "@ + t.title
}

/// Renders one task as a checklist line.
pub fn format_task(task: &Task) -> (r: String)
    ensures
        r@ == task_line(task@),
{
    let mut line = if task.is_done() {
        String::from_str("[x] #")
    } else {
        String::from_str("[ ] #")
    };
    line.append(decimal_string(task.id().get()).as_str());
    line.append(" ");
    line.append(task.title());
    line
}

fn report_task(verb: &str, task: &Task) -> (r: String)
    ensures
        r@ == report(verb@, task@),
{
    let mut line = String::from_str(verb);
    line.append(" task #");
    line.append(decimal_string(task.id().get()).as_str());
    line.append(": ");
    line.append(task.title());
    line
}

/// Runs one command against the manager and renders its outcome.
pub fn execute<S: TaskStore>(manager: &mut TaskManager<S>, command: Command) -> (r: Result<
    String,
    TaskError,
>)
    ensures
        command is List ==> final(manager)@ == old(manager)@,
        command matches Command::List { pending_only } ==> (r matches Ok(s) && s@ == listing(
            listed(old(manager)@, !pending_only),
        )),
        command matches Command::Add { title } ==> {
            &&& trim(title@).len() == 0 ==> r == Err::<String, TaskError>(TaskError::InvalidTitle)
            &&& r is Ok <==> old(manager).store().add_ok(title@)
            &&& r is Err ==> final(manager)@ == old(manager)@
            &&& r matches Ok(s) ==> {
                let t = final(manager)@.last();
                &&& t.id == old(manager).store().next_task_id()
                &&& final(manager)@ == old(manager)@.push(t)
                &&& t.title == trim(title@)
                &&& !t.done
                &&& !has_id(old(manager)@, t.id)
                &&& s@ == report("Added"@, t)
            }
        },
        command matches Command::Complete { id } ==> {
            &&& id == 0 ==> r == Err::<String, TaskError>(TaskError::InvalidId(0))
            &&& id != 0 && !has_id(old(manager)@, id) ==> (r matches Err(TaskError::NotFound(x))
                && x@ == id)
            &&& id != 0 ==> (r is Ok <==> old(manager).store().complete_ok(id))
            &&& r is Err ==> final(manager)@ == old(manager)@
            &&& r matches Ok(s) ==> {
                let i = position_of(old(manager)@, id);
                &&& has_id(old(manager)@, id)
                &&& final(manager)@ == old(manager)@.update(i, completed(old(manager)@[i]))
                &&& s@ == report("Completed"@, completed(old(manager)@[i]))
            }
        },
        command matches Command::Remove { id } ==> {
            &&& id == 0 ==> r == Err::<String, TaskError>(TaskError::InvalidId(0))
            &&& id != 0 && !has_id(old(manager)@, id) ==> (r matches Err(TaskError::NotFound(x))
                && x@ == id)
            &&& id != 0 ==> (r is Ok <==> old(manager).store().remove_ok(id))
            &&& r is Err ==> final(manager)@ == old(manager)@
            &&& r matches Ok(s) ==> {
                let i = position_of(old(manager)@, id);
                &&& has_id(old(manager)@, id)
                &&& final(manager)@ == old(manager)@.remove(i)
                &&& s@ == report("Removed"@, old(manager)@[i])
            }
        },
{
    match command {
        Command::Add { title } => {
            let task = manager.add(title.as_str())?;
            Ok(report_task("Added", &task))
        },
        Command::List { pending_only } => {
            let tasks = manager.list(!pending_only);
            if tasks.len() == 0 {
                Ok(String::from_str("No tasks yet."))
            } else {
                Ok(join_lines(&tasks))
            }
        },
        Command::Complete { id } => {
            let id = TaskId::new(id)?;
            let task = manager.complete(id)?;
            Ok(report_task("Completed", &task))
        },
        Command::Remove { id } => {
            let id = TaskId::new(id)?;
            let task = manager.remove(id)?;
            Ok(report_task("Removed", &task))
        },
    }
}

fn join_lines(tasks: &Vec<&Task>) -> (r: String)
    ensures
        r@ == joined_lines(ref_views(tasks@)),
{
    let mut out = String::new();
    let mut i: usize = 0;
    while i < tasks.len()
        invariant
            i <= tasks.len(),
            out@ == joined_lines(ref_views(tasks@.subrange(0, i as int))),
        decreases tasks.len() - i,
    {
        let ghost before = ref_views(tasks@.subrange(0, i as int));
        if i > 0 {
            out.append("\n");
        }
        out.append(format_task(tasks[i]).as_str());
        i = i + 1;
        proof {
            let after = ref_views(tasks@.subrange(0, i as int));
            assert(after.drop_last() =~= before);
            assert(after.last() == tasks@[i - 1]@);
            if i == 1 {
                assert(after.len() == 1);
            }
        }
    }
    assert(tasks@.subrange(0, i as int) =~= tasks@);
    out
}

} // verus!
