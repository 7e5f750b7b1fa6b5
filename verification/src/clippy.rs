//! Lint-run analysis: recognizing a missing lint tool, and counting the
//! tool's diagnostics. The host parses the tool's JSON lines into plain
//! records; the classification and counting is verified here.

use vstd::prelude::*;
use crate::output::ClippyIssue;
use crate::strings::{contains_seq, lower_seq, starts_with_seq, str_contains_fold,
    str_starts_with};

verus! {

/// stderr says the lint tool is missing, in any of the known phrasings,
/// compared after ASCII case folding.
pub open spec fn spec_clippy_missing(stderr: Seq<char>) -> bool {
    ||| contains_seq(lower_seq(stderr), lower_seq("clippy is not installed"@))
    ||| contains_seq(lower_seq(stderr), lower_seq("no such subcommand: clippy"@))
    ||| contains_seq(lower_seq(stderr), lower_seq("component 'clippy' is missing"@))
    ||| contains_seq(lower_seq(stderr), lower_seq("rustup component add clippy"@))
}

/// Whether stderr indicates the lint tool is not installed.
pub fn is_clippy_missing(stderr: &str) -> (r: bool)
    ensures
        r == spec_clippy_missing(stderr@),
{
    str_contains_fold(stderr, "clippy is not installed") || str_contains_fold(
        stderr,
        "no such subcommand: clippy",
    ) || str_contains_fold(stderr, "component 'clippy' is missing") || str_contains_fold(
        stderr,
        "rustup component add clippy",
    )
}

/// One primary-or-first span of a diagnostic.
#[derive(Debug)]
pub struct ClippySpan {
    pub file_name: String,
    pub line_start: u32,
    pub is_primary: bool,
}

/// One compiler diagnostic, as parsed from a JSON line.
#[derive(Debug)]
pub struct ClippyDiagnostic {
    pub level: String,
    pub code: Option<String>,
    pub message: String,
    pub spans: Vec<ClippySpan>,
}

/// One line of compiler output: its reason tag and the diagnostic, when
/// the line carried one.
#[derive(Debug)]
pub struct ClippyMessage {
    pub reason: String,
    pub message: Option<ClippyDiagnostic>,
}

/// A message counts when it is a compiler message with a diagnostic at
/// warning or error level whose lint code starts with `clippy::`.
pub open spec fn spec_counted(m: ClippyMessage) -> bool {
    &&& m.reason@ == "compiler-message"@
    &&& m.message is Some
    &&& (m.message->Some_0.level@ == "warning"@ || m.message->Some_0.level@ == "error"@)
    &&& m.message->Some_0.code is Some
    &&& starts_with_seq(m.message->Some_0.code->Some_0@, "clippy::"@)
}

/// A message counts as a warning.
pub open spec fn spec_counted_warning(m: ClippyMessage) -> bool {
    spec_counted(m) && m.message->Some_0.level@ == "warning"@
}

/// How many of the messages count at warning level.
pub open spec fn count_warnings(ms: Seq<ClippyMessage>) -> nat
    decreases ms.len(),
{
    if ms.len() == 0 {
        0
    } else {
        count_warnings(ms.drop_last()) + if spec_counted_warning(ms.last()) {
            1nat
        } else {
            0nat
        }
    }
}

/// How many of the messages count at error level.
pub open spec fn count_errors(ms: Seq<ClippyMessage>) -> nat
    decreases ms.len(),
{
    if ms.len() == 0 {
        0
    } else {
        count_errors(ms.drop_last()) + if spec_counted(ms.last()) && !spec_counted_warning(
            ms.last(),
        ) {
            1nat
        } else {
            0nat
        }
    }
}

fn first_span<'a>(spans: &'a Vec<ClippySpan>) -> (r: Option<&'a ClippySpan>)
    ensures
        r is Some <==> spans@.len() > 0,
{
    let mut i: usize = 0;
    while i < spans.len()
        invariant
            i <= spans@.len(),
        decreases spans@.len() - i,
    {
        if spans[i].is_primary {
            return Some(&spans[i]);
        }
        i += 1;
    }
    if spans.len() > 0 {
        Some(&spans[0])
    } else {
        None
    }
}

/// Counts the lint findings among the parsed messages: warnings and
/// errors with a `clippy::` lint code, one issue record each (located at
/// the primary span, or the first span when none is primary), plus one
/// synthetic error entry when the run failed without producing any
/// counted error.
pub fn summarize_clippy(messages: &Vec<ClippyMessage>, clippy_failed: bool, clippy_status: &str)
    -> (r: (usize, usize, Vec<ClippyIssue>, Vec<(String, usize)>))
    ensures
        r.0 == count_warnings(messages@),
        r.1 == count_errors(messages@) + (if clippy_failed && count_errors(messages@) == 0 {
            1int
        } else {
            0int
        }),
        r.2@.len() == r.0 + r.1,
{
    let mut warnings: usize = 0;
    let mut errors: usize = 0;
    let mut warnings_by_lint: Vec<(String, usize)> = Vec::new();
    let mut details: Vec<ClippyIssue> = Vec::new();

    let mut i: usize = 0;
    while i < messages.len()
        invariant
            i <= messages@.len(),
            warnings == count_warnings(messages@.take(i as int)),
            errors == count_errors(messages@.take(i as int)),
            warnings + errors == details@.len(),
            details@.len() <= i,
        decreases messages@.len() - i,
    {
        proof {
            assert(messages@.take(i + 1).drop_last() =~= messages@.take(i as int));
            assert(messages@.take(i + 1).last() == messages@[i as int]);
        }
        let msg = &messages[i];
        if crate::strings::str_eq(msg.reason.as_str(), "compiler-message") {
            match &msg.message {
                Some(diagnostic) => {
                    let is_warning = crate::strings::str_eq(diagnostic.level.as_str(), "warning");
                    let is_error = crate::strings::str_eq(diagnostic.level.as_str(), "error");
                    if is_warning || is_error {
                        let lint = match &diagnostic.code {
                            Some(code) => {
                                if str_starts_with(code.as_str(), "clippy::") {
                                    Some(code.clone())
                                } else {
                                    None
                                }
                            },
                            None => None,
                        };
                        match lint {
                            Some(lint) => {
                                if is_warning {
                                    warnings += 1;
                                    bump_lint(&mut warnings_by_lint, lint.as_str());
                                } else {
                                    errors += 1;
                                }
                                let span = first_span(&diagnostic.spans);
                                let (file, line) = match span {
                                    Some(s) => (Some(s.file_name.clone()), Some(s.line_start)),
                                    None => (None, None),
                                };
                                details.push(
                                    ClippyIssue {
                                        lint,
                                        level: diagnostic.level.clone(),
                                        message: diagnostic.message.clone(),
                                        file,
                                        line,
                                    },
                                );
                            },
                            None => {},
                        }
                    }
                },
                None => {},
            }
        }
        i += 1;
    }
    proof {
        assert(messages@.take(messages@.len() as int) =~= messages@);
    }

    if clippy_failed && errors == 0 {
        errors = 1;
        let mut message = String::new();
        message.append("cargo clippy exited with status ");
        message.append(clippy_status);
        details.push(
            ClippyIssue {
                lint: "clippy::driver".to_owned(),
                level: "error".to_owned(),
                message,
                file: None,
                line: None,
            },
        );
    }

    (warnings, errors, details, warnings_by_lint)
}

/// Raises the count recorded for one lint name, adding the entry on its
/// first finding.
fn bump_lint(warnings_by_lint: &mut Vec<(String, usize)>, lint: &str)
    ensures
        final(warnings_by_lint)@.len() >= old(warnings_by_lint)@.len(),
{
    let mut i: usize = 0;
    while i < warnings_by_lint.len()
        invariant
            i <= warnings_by_lint@.len(),
            warnings_by_lint@.len() == old(warnings_by_lint)@.len(),
        decreases warnings_by_lint@.len() - i,
    {
        let hit = crate::strings::str_eq(warnings_by_lint[i].0.as_str(), lint);
        if hit {
            let mut entry = warnings_by_lint.remove(i);
            if entry.1 < usize::MAX {
                entry.1 = entry.1 + 1;
            }
            warnings_by_lint.insert(i, entry);
            return ;
        }
        i += 1;
    }
    warnings_by_lint.push((lint.to_owned(), 1));
}

} // verus!
