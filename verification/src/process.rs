//! How the outcome of a command is told.

use vstd::prelude::*;
use vstd::string::*;

use crate::error::{AppError, AppResult};
use crate::text::{decimal, decimal_string, from_utf8_lossy, is_blank, is_space, law_trimming, lossy_text, signed, signed_string, trim, trimmed};

verus! {

/// How a command ended: its exit code, or the signal that ended it.
pub open spec fn ending(code: Option<i32>) -> Seq<char> {
    match code {
        Some(c) => signed(c as int),
        None => "terminated by signal"@,
    }
}

/// What is said of a failed command: what it printed as its error, or `prefix`
/// where it printed nothing, and how it ended.
pub open spec fn command_error(prefix: Seq<char>, code: Option<i32>, stderr: Seq<char>) -> Seq<
    char,
> {
    (if trimmed(stderr).len() == 0 {
        prefix
    } else {
        trimmed(stderr)
    }) + " (exit "@ + ending(code) + ")"@
}

/// What is said of a failed command.
pub fn format_command_error(prefix: &str, code: Option<i32>, stderr: &str) -> (r: String)
    ensures
        r@ == command_error(prefix@, code, stderr@),
{
    let said = trim(stderr);
    let ending = match code {
        Some(c) => signed_string(c),
        None => "terminated by signal".to_owned(),
    };
    let start = if said.is_empty() { prefix } else { said };
    start.to_owned().concat(" (exit ").concat(ending.as_str()).concat(")")
}

/// What a command that ended comes to: its trimmed output, or the failure. The
/// command is described as it is shown in messages.
pub fn command_outcome(
    described: &str,
    success: bool,
    code: Option<i32>,
    stdout: &[u8],
    stderr: &[u8],
) -> (r: AppResult<String>)
    ensures
        match r {
            Ok(out) => success && out@ == trimmed(lossy_text(stdout@)),
            Err(e) => !success && (e matches AppError::CommandFailed(m) && m@ == command_error(
                described@ + " failed"@,
                code,
                lossy_text(stderr@),
            )),
        },
{
    if success {
        let out = from_utf8_lossy(stdout);
        return Ok(trim(out.as_str()).to_owned());
    }
    let said = from_utf8_lossy(stderr);
    let prefix = described.to_owned().concat(" failed");
    Err(AppError::CommandFailed(format_command_error(prefix.as_str(), code, said.as_str())))
}

/// What is said of a command that was ended because it took too long.
pub fn timeout_error(described: &str, seconds: u64) -> (r: AppError)
    ensures
        r matches AppError::CommandFailed(m) && m@ == described@ + " timed out after "@ + decimal(
            seconds as nat,
        ) + "s"@,
{
    let secs = decimal_string(seconds as u128);
    AppError::CommandFailed(
        described.to_owned().concat(" timed out after ").concat(secs.as_str()).concat("s"),
    )
}

/// What is said of a command whose output cannot be read.
pub fn unavailable_error(program: &str, stream: &str) -> (r: AppError)
    ensures
        r matches AppError::CommandFailed(m) && m@ == program@ + " "@ + stream@ + " unavailable"@,
{
    AppError::CommandFailed(program.to_owned().concat(" ").concat(stream).concat(" unavailable"))
}

/// A failed command is explained by what it printed as its error, without the white
/// space around it, and by its exit code with its sign.
pub proof fn law_failed_commands_are_explained(
    prefix: Seq<char>,
    code: i32,
    before: Seq<char>,
    said: Seq<char>,
    after: Seq<char>,
)
    requires
        is_blank(before),
        is_blank(after),
        said.len() > 0 ==> !is_space(said[0]) && !is_space(said.last()),
    ensures
        ({
            let why = if said.len() > 0 {
                said
            } else {
                prefix
            };
            let error = before + said + after;
            &&& code >= 0 ==> command_error(prefix, Some(code), error) == why + " (exit "@ + decimal(
                code as nat,
            ) + ")"@
            &&& code < 0 ==> command_error(prefix, Some(code), error) == why + " (exit "@ + ("-"@
                + decimal((-code) as nat)) + ")"@
            &&& command_error(prefix, None, error) == why + " (exit "@ + "terminated by signal"@
                + ")"@
        }),
{
    law_trimming(before, said, after);
}

} // verus!
