//! The command-line client's rules: input is validated with the shared
//! domain rules before any request, each command maps to one REST call, and
//! every outcome maps to a fixed exit code and message so scripts can branch
//! on them: success `0`, usage `2`, API error `3`, malformed response `4`,
//! connection or timeout `5`.

use vstd::prelude::*;

use crate::rest::domain::{
    normalize_patch, normalize_title, patch_outcome, patch_title, title_outcome, validate_id,
    Task, TaskFilter, TaskPatch, TaskView,
};
use crate::rest::error::{is_validation, TaskError};
use crate::rest::http::{task_json, task_text, tasks_json, tasks_text};
use crate::rest::boundary::id_outcome;
use crate::text::{chars_of, decimal, decimal_string, parse_digits, signed_decimal, signed_decimal_string};

verus! {

/// Exit code: the command succeeded.
pub const EXIT_SUCCESS: i32 = 0;

/// Exit code: bad arguments or invalid input (nothing was sent).
pub const EXIT_USAGE: i32 = 2;

/// Exit code: the server returned a well-formed error response.
pub const EXIT_API: i32 = 3;

/// Exit code: the response violated the wire contract.
pub const EXIT_UNEXPECTED_RESPONSE: i32 = 4;

/// Exit code: the request could not reach the server or timed out.
pub const EXIT_CONNECTION: i32 = 5;

/// The request timeout, in seconds, when none is configured.
pub const DEFAULT_TIMEOUT_SECS: u64 = 5;

/// The one-line usage summary printed for any usage error.
pub const USAGE: &'static str = "usage: tasks [--base-url URL] [--timeout SECONDS] <add|list|show|update|complete|remove> ...";

/// One subcommand, each corresponding to a REST operation.
#[allow(inconsistent_fields)]
#[derive(Debug, PartialEq, Eq)]
pub enum Command {
    Add { title: String },
    List { completed: Option<bool> },
    Show { id: i64 },
    Update { id: i64, title: Option<String>, completed: Option<bool> },
    Complete { id: i64 },
    Remove { id: i64 },
}

/// The title of an optional string, by its characters.
pub open spec fn opt_chars(s: Option<String>) -> Option<Seq<char>> {
    match s {
        Some(t) => Some(t@),
        None => None,
    }
}

/// The outcome of validating a command: the title of `add` and the patch of
/// `update` are normalized, and every ID must be positive.
pub open spec fn command_outcome(c: Command) -> Result<(), (Seq<char>, Seq<char>)> {
    match c {
        Command::Add { title } => match title_outcome(title@) {
            Ok(_) => Ok(()),
            Err(m) => Err(("title"@, m)),
        },
        Command::List { .. } => Ok(()),
        Command::Show { id } | Command::Complete { id } | Command::Remove { id } => if id > 0 {
            Ok(())
        } else {
            Err(("id"@, "task ID must be a positive integer"@))
        },
        Command::Update { id, title, completed } => if id <= 0 {
            Err(("id"@, "task ID must be a positive integer"@))
        } else {
            match patch_outcome(opt_chars(title), completed) {
                Ok(_) => Ok(()),
                Err(rejection) => Err(rejection),
            }
        },
    }
}

/// Validates a command in place before anything is sent: an `add` title and
/// an `update` patch are replaced by their normalized forms.
pub fn validate_command(command: &mut Command) -> (r: Result<(), TaskError>)
    ensures
        command_outcome(*old(command)) matches Err((f, m)) ==> (r matches Err(e) && is_validation(e, f, m)),
        command_outcome(*old(command)) is Ok ==> r is Ok,
        *old(command) matches Command::Add { title } ==> (title_outcome(title@) matches Ok(t) ==> (
            *final(command) matches Command::Add { title: n } && n@ == t)),
        *old(command) matches Command::Update { id, title, completed } ==> (command_outcome(*old(command)) is Ok ==> (
            *final(command) matches Command::Update { id: i, title: t, completed: c } && i == id
                && patch_outcome(opt_chars(title), completed) == Ok::<Option<Seq<char>>, (Seq<char>, Seq<char>)>(opt_chars(t))
                && c == completed)),
        !(*old(command) is Add) && !(*old(command) is Update) ==> *final(command) == *old(command),
        *old(command) matches Command::Add { title } ==> (title_outcome(title@) is Err ==> *final(command) == *old(command)),
        *old(command) matches Command::Update { id, title, completed } ==> (id <= 0 ==> *final(command) == *old(command)),
        *old(command) matches Command::Update { id, title, completed } ==> (id > 0 && patch_outcome(opt_chars(title), completed) is Err
            ==> *final(command) == (Command::Update { id, title: None, completed })),
{
    match command {
        Command::Add { title } => {
            let normalized = normalize_title(title.as_str())?;
            *title = normalized;
        },
        Command::List { .. } => {},
        Command::Show { id } => {
            validate_id(*id)?;
        },
        Command::Complete { id } => {
            validate_id(*id)?;
        },
        Command::Remove { id } => {
            validate_id(*id)?;
        },
        Command::Update { id, title, completed } => {
            validate_id(*id)?;
            let mut taken: Option<String> = None;
            std::mem::swap(&mut taken, title);
            let patch = normalize_patch(TaskPatch { title: taken, completed: *completed })?;
            *title = patch.title;
            *completed = patch.completed;
        },
    }
    Ok(())
}

/// The REST call a command makes.
#[derive(Debug, PartialEq, Eq)]
pub enum ClientRequest {
    Create { title: String },
    List { filter: TaskFilter },
    Get { id: i64 },
    Update { id: i64, patch: TaskPatch },
    Delete { id: i64 },
}

fn copy_title(title: &Option<String>) -> (r: Option<String>)
    ensures
        opt_chars(r) == opt_chars(*title),
{
    match title {
        Some(t) => Some(t.clone()),
        None => None,
    }
}

/// The call each command makes: `complete` is an update that only sets
/// `completed`, and `remove` is a delete.
pub fn request_for(command: &Command) -> (r: ClientRequest)
    ensures
        *command matches Command::Add { title } ==> (r matches ClientRequest::Create { title: t } && t@ == title@),
        *command matches Command::List { completed } ==> r == (ClientRequest::List { filter: TaskFilter { completed } }),
        *command matches Command::Show { id } ==> r == (ClientRequest::Get { id }),
        *command matches Command::Update { id, title, completed } ==> (r matches ClientRequest::Update { id: i, patch }
            && i == id && patch_title(patch) == opt_chars(title) && patch.completed == completed),
        *command matches Command::Complete { id } ==> (r matches ClientRequest::Update { id: i, patch }
            && i == id && patch.title is None && patch.completed == Some(true)),
        *command matches Command::Remove { id } ==> r == (ClientRequest::Delete { id }),
{
    match command {
        Command::Add { title } => ClientRequest::Create { title: title.clone() },
        Command::List { completed } => ClientRequest::List { filter: TaskFilter { completed: *completed } },
        Command::Show { id } => ClientRequest::Get { id: *id },
        Command::Update { id, title, completed } => ClientRequest::Update {
            id: *id,
            patch: TaskPatch { title: copy_title(title), completed: *completed },
        },
        Command::Complete { id } => ClientRequest::Update {
            id: *id,
            patch: TaskPatch { title: None, completed: Some(true) },
        },
        Command::Remove { id } => ClientRequest::Delete { id: *id },
    }
}

/// What a successful call returned.
pub enum ClientReply {
    Task(Task),
    Tasks(Vec<Task>),
    Deleted(i64),
}

/// The compact JSON a command prints on success: the task, the array of
/// tasks, or `{"deleted":ID}`.
pub fn reply_text(reply: &ClientReply) -> (r: String)
    ensures
        *reply matches ClientReply::Task(t) ==> r@ == task_text(t@),
        *reply matches ClientReply::Tasks(ts) ==> r@ == tasks_text(ts@.map_values(|t: Task| t@)),
        *reply matches ClientReply::Deleted(id) ==> r@ == "{\"deleted\":"@ + signed_decimal(id) + "}"@,
{
    match reply {
        ClientReply::Task(t) => task_json(t),
        ClientReply::Tasks(ts) => tasks_json(ts),
        ClientReply::Deleted(id) => {
            let mut out = String::from_str("{\"deleted\":");
            out.append(signed_decimal_string(*id).as_str());
            out.append("}");
            out
        },
    }
}

/// The exit code and the line written to standard error for a usage error.
pub fn usage() -> (r: (i32, String))
    ensures
        r.0 == EXIT_USAGE,
        r.1@ == USAGE@,
{
    (EXIT_USAGE, String::from_str(USAGE))
}

/// The exit code and the line written to standard error when the output
/// could not be delivered or the failure has no better class.
pub fn transport_failure() -> (r: (i32, String))
    ensures
        r.0 == EXIT_CONNECTION,
        r.1@ == "transport: request failed"@,
{
    (EXIT_CONNECTION, String::from_str("transport: request failed"))
}

/// The exit code and standard-error line for a failed command.
pub open spec fn error_report(e: TaskError) -> (i32, Seq<char>) {
    match e {
        TaskError::Api { status, code, message, .. } => (
            EXIT_API,
            "api: "@ + decimal(status as nat) + " "@ + code@ + ": "@ + message@,
        ),
        TaskError::UnexpectedResponse { message } => (EXIT_UNEXPECTED_RESPONSE, "malformed-response: "@ + message@),
        TaskError::Connection { timeout, .. } => (
            EXIT_CONNECTION,
            if timeout {
                "connection: timeout: request timed out"@
            } else {
                "connection: request failed"@
            },
        ),
        TaskError::ClientConfiguration { .. } | TaskError::Validation { .. } => (EXIT_USAGE, USAGE@),
        _ => (EXIT_CONNECTION, "transport: request failed"@),
    }
}

/// Maps a failure to its exit code and the line to write to standard error.
pub fn render_error(error: &TaskError) -> (r: (i32, String))
    ensures
        r.0 == error_report(*error).0,
        r.1@ == error_report(*error).1,
        r.0 != EXIT_SUCCESS,
{
    if let Some((status, code, message, _)) = error.api_details() {
        let mut line = String::from_str("api: ");
        line.append(decimal_string(status as u64).as_str());
        line.append(" ");
        line.append(code);
        line.append(": ");
        line.append(message);
        return (EXIT_API, line);
    }
    if let Some(message) = error.unexpected_response_message() {
        let mut line = String::from_str("malformed-response: ");
        line.append(message);
        return (EXIT_UNEXPECTED_RESPONSE, line);
    }
    if error.is_connection() {
        if error.is_timeout() {
            return (EXIT_CONNECTION, String::from_str("connection: timeout: request timed out"));
        }
        return (EXIT_CONNECTION, String::from_str("connection: request failed"));
    }
    if error.client_configuration_details().is_some() || error.validation_details().is_some() {
        return usage();
    }
    transport_failure()
}

/// Parses a positive ID argument: ASCII digits only, positive and in range.
pub fn parse_positive_id(raw: &str) -> (r: Result<i64, String>)
    ensures
        id_outcome(raw@) matches Some(id) ==> r == Ok::<i64, String>(id),
        id_outcome(raw@) is None ==> (r matches Err(m) && m@ == "ID must be a positive integer"@),
{
    let chars = chars_of(raw);
    match parse_digits(chars.as_slice()) {
        Some(id) => if id > 0 {
            Ok(id)
        } else {
            Err(String::from_str("ID must be a positive integer"))
        },
        None => Err(String::from_str("ID must be a positive integer")),
    }
}

} // verus!
