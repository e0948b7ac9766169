use vstd::prelude::*;

use crate::model::contains_id;
use crate::registry::{find_app, index_of, AppState, RegistryError};

verus! {

pub const STATUS_OK: u16 = 200;
pub const STATUS_NO_CONTENT: u16 = 204;
pub const STATUS_NOT_FOUND: u16 = 404;
pub const STATUS_SERVER_ERROR: u16 = 500;

/// What a launch request answers: the HTTP status and the fields of the body.
/// `command`, `stdout` and `stderr` are absent where no entry was found.
pub struct LaunchReport {
    pub status: u16,
    pub success: bool,
    pub message: String,
    pub command: Option<String>,
    pub stdout: Option<String>,
    pub stderr: Option<String>,
}

/// The text of `b` read as UTF-8, each invalid sequence replaced.
pub uninterp spec fn lossy_utf8(b: Seq<u8>) -> Seq<char>;

/// Relies on String::from_utf8_lossy: the text of the bytes, each invalid
/// sequence replaced by U+FFFD; it depends on the bytes alone, and no bytes
/// give no text.
#[verifier::external_body]
fn decode_lossy(b: &[u8]) -> (r: String)
    ensures
        r@ == lossy_utf8(b@),
        b@.len() == 0 ==> r@.len() == 0,
{
    String::from_utf8_lossy(b).into_owned()
}

pub open spec fn success_message() -> Seq<char> {
    "Command executed successfully."@
}

pub open spec fn failure_message() -> Seq<char> {
    "Command failed."@
}

pub open spec fn start_failure_prefix() -> Seq<char> {
    "Failed to execute process: "@
}

pub open spec fn not_found_message() -> Seq<char> {
    "App not found"@
}

/// The report of a launch whose entry is unknown.
pub fn report_not_found() -> (r: LaunchReport)
    ensures
        r.status == STATUS_NOT_FOUND,
        !r.success,
        r.message@ == not_found_message(),
        r.command is None && r.stdout is None && r.stderr is None,
{
    LaunchReport {
        status: STATUS_NOT_FOUND,
        success: false,
        message: String::from_str("App not found"),
        command: None,
        stdout: None,
        stderr: None,
    }
}

/// The report of a command that ran to its end, whatever its exit status:
/// success is a successful exit; the captured output is decoded leniently.
pub fn report_finished(command: String, exit_ok: bool, stdout: &[u8], stderr: &[u8]) -> (r: LaunchReport)
    ensures
        r.status == STATUS_OK,
        r.success == exit_ok,
        r.message@ == if exit_ok { success_message() } else { failure_message() },
        r.command matches Some(c) && c@ == command@,
        r.stdout matches Some(o) && o@ == lossy_utf8(stdout@),
        r.stderr matches Some(e) && e@ == lossy_utf8(stderr@),
{
    let message = if exit_ok {
        String::from_str("Command executed successfully.")
    } else {
        String::from_str("Command failed.")
    };
    LaunchReport {
        status: STATUS_OK,
        success: exit_ok,
        message,
        command: Some(command),
        stdout: Some(decode_lossy(stdout)),
        stderr: Some(decode_lossy(stderr)),
    }
}

/// The report of a command whose interpreter could not be started: the
/// message carries the reason, and there is no output.
pub fn report_start_failure(command: String, reason: &str) -> (r: LaunchReport)
    ensures
        r.status == STATUS_SERVER_ERROR,
        !r.success,
        r.message@ == start_failure_prefix() + reason@,
        r.command matches Some(c) && c@ == command@,
        r.stdout matches Some(o) && o@.len() == 0,
        r.stderr matches Some(e) && e@.len() == 0,
{
    let message = String::from_str("Failed to execute process: ").concat(reason);
    LaunchReport {
        status: STATUS_SERVER_ERROR,
        success: false,
        message,
        command: Some(command),
        stdout: Some(String::new()),
        stderr: Some(String::new()),
    }
}

/// The command line to hand to the shell for the entry `id`, or, where no
/// entry carries it, the report to answer with; the registry is only read.
pub fn launch_app(state: &AppState, id: u128) -> (r: Result<String, LaunchReport>)
    requires
        state.wf(),
    ensures
        r is Ok <==> contains_id(state@, id),
        match r {
            Ok(c) => c@ == state@[index_of(state@, id)].command,
            Err(rep) => rep.status == STATUS_NOT_FOUND && !rep.success && rep.message@ == not_found_message()
                && rep.command is None,
        },
{
    match find_app(state, id) {
        Some(a) => Ok(a.command),
        None => Err(report_not_found()),
    }
}

/// The status that answers an update: 200, or 404 for an unknown id.
pub fn update_status(r: &Result<(), RegistryError>) -> (s: u16)
    ensures
        s == match r {
            Ok(_) => STATUS_OK,
            Err(_) => STATUS_NOT_FOUND,
        },
{
    match r {
        Ok(_) => STATUS_OK,
        Err(_) => STATUS_NOT_FOUND,
    }
}

/// The status that answers a delete: 204, or 404 for an unknown id.
pub fn delete_status(r: &Result<(), RegistryError>) -> (s: u16)
    ensures
        s == match r {
            Ok(_) => STATUS_NO_CONTENT,
            Err(_) => STATUS_NOT_FOUND,
        },
{
    match r {
        Ok(_) => STATUS_NO_CONTENT,
        Err(_) => STATUS_NOT_FOUND,
    }
}

} // verus!
