//! Shared logic around external cargo tools: recognizing a missing
//! subcommand or an unknown flag in stderr, and folding a tool run's
//! outcome into a result or a reported error.

use vstd::prelude::*;
use crate::error::{ErrorCode, UpkeepError};
use crate::strings::{contains_seq, lower_seq, str_contains_fold, trim_back, trim_front,
    trim_spaces};

verus! {

/// Configuration for running an external cargo tool: its subcommand name
/// and the installation hint shown when it is missing.
#[derive(Debug)]
pub struct ExternalToolConfig {
    pub tool_name: String,
    pub install_hint: String,
}

/// What a finished tool run produced: whether it exited successfully, and
/// its output streams as text.
#[derive(Debug)]
pub struct ToolOutput {
    pub success: bool,
    pub stdout: String,
    pub stderr: String,
}

/// stderr names a missing cargo subcommand: it holds "no such subcommand"
/// or "unknown subcommand" and the tool's name, all compared after ASCII
/// case folding (non-ASCII letters keep their case; the phrases sought
/// are ASCII, so only a non-ASCII tool name could compare differently
/// than under full Unicode folding).
pub open spec fn spec_missing_subcommand(stderr: Seq<char>, tool: Seq<char>) -> bool {
    (contains_seq(lower_seq(stderr), lower_seq("no such subcommand"@)) || contains_seq(
        lower_seq(stderr),
        lower_seq("unknown subcommand"@),
    )) && contains_seq(lower_seq(stderr), lower_seq(tool))
}

/// Whether stderr indicates a missing cargo subcommand.
pub fn is_missing_subcommand(stderr: &str, tool_name: &str) -> (r: bool)
    ensures
        r == spec_missing_subcommand(stderr@, tool_name@),
{
    (str_contains_fold(stderr, "no such subcommand") || str_contains_fold(
        stderr,
        "unknown subcommand",
    )) && str_contains_fold(stderr, tool_name)
}

/// stderr names an unknown command-line flag: it holds "unexpected
/// argument" or "found argument" and the flag's name, all compared after
/// ASCII case folding.
pub open spec fn spec_unknown_flag(stderr: Seq<char>, flag: Seq<char>) -> bool {
    (contains_seq(lower_seq(stderr), lower_seq("unexpected argument"@)) || contains_seq(
        lower_seq(stderr),
        lower_seq("found argument"@),
    )) && contains_seq(lower_seq(stderr), lower_seq(flag))
}

/// Whether stderr indicates an unknown command-line flag.
pub fn is_unknown_flag(stderr: &str, flag_name: &str) -> (r: bool)
    ensures
        r == spec_unknown_flag(stderr@, flag_name@),
{
    (str_contains_fold(stderr, "unexpected argument") || str_contains_fold(
        stderr,
        "found argument",
    )) && str_contains_fold(stderr, flag_name)
}

/// The message reported when the tool is not installed.
pub open spec fn missing_tool_message(config: ExternalToolConfig) -> Seq<char> {
    "cargo-"@ + config.tool_name@ + " is not installed; install with `"@ + config.install_hint@
        + "`"@
}

/// The message reported when the tool failed and said nothing.
pub open spec fn silent_failure_message(config: ExternalToolConfig) -> Seq<char> {
    "cargo "@ + config.tool_name@ + " failed with no stderr output"@
}

/// The message reported when the tool failed with some stderr text.
pub open spec fn failure_message(config: ExternalToolConfig, stderr: Seq<char>) -> Seq<char> {
    "cargo "@ + config.tool_name@ + " failed: "@ + trim_back(trim_front(stderr))
}

/// Folds a tool run's outcome into a result: a successful run passes
/// through, as does a failed run that still wrote to stdout; a failed run
/// whose stderr shows the tool is missing (`tool_missing`, judged by the
/// caller) reports that, with the installation hint; any other failure
/// reports the trimmed stderr text, or its absence.
pub fn handle_tool_output(output: ToolOutput, config: &ExternalToolConfig, tool_missing: bool)
    -> (r: Result<ToolOutput, UpkeepError>)
    ensures
        r is Ok <==> output.success || (!tool_missing && output.stdout@.len() > 0),
        r matches Ok(o) ==> o == output,
        r matches Err(e) ==> {
            if tool_missing {
                e.code == ErrorCode::MissingTool && e.msg@ == missing_tool_message(*config)
            } else if trim_back(trim_front(output.stderr@)).len() == 0 {
                e.code == ErrorCode::ExternalCommand && e.msg@ == silent_failure_message(*config)
            } else {
                e.code == ErrorCode::ExternalCommand && e.msg@ == failure_message(
                    *config,
                    output.stderr@,
                )
            }
        },
{
    if output.success {
        return Ok(output);
    }
    if tool_missing {
        let mut msg = String::new();
        msg.append("cargo-");
        msg.append(config.tool_name.as_str());
        msg.append(" is not installed; install with `");
        msg.append(config.install_hint.as_str());
        msg.append("`");
        return Err(UpkeepError::message(ErrorCode::MissingTool, msg));
    }
    if output.stdout.as_str().unicode_len() > 0 {
        return Ok(output);
    }
    let trimmed = trim_spaces(output.stderr.as_str());
    if trimmed.as_str().unicode_len() == 0 {
        let mut msg = String::new();
        msg.append("cargo ");
        msg.append(config.tool_name.as_str());
        msg.append(" failed with no stderr output");
        return Err(UpkeepError::message(ErrorCode::ExternalCommand, msg));
    }
    let mut msg = String::new();
    msg.append("cargo ");
    msg.append(config.tool_name.as_str());
    msg.append(" failed: ");
    msg.append(trimmed.as_str());
    Err(UpkeepError::message(ErrorCode::ExternalCommand, msg))
}

} // verus!
