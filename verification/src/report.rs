//! What one run of the build tool is told back as.

use vstd::prelude::*;
use vstd::string::StringExecFns;
use vstd::utf8::{decode_utf8, valid_utf8};

use crate::text::{decimal, decimal_text};

verus! {

/// How one run of the build tool ended. The exit code is missing where the
/// process was ended by a signal.
#[derive(Debug, PartialEq, Eq)]
pub enum Outcome {
    Exited { code: Option<i32>, stdout: String, stderr: String },
    SpawnFailed { reason: String },
}

/// What an [`Outcome`] holds, as plain sequences.
pub enum OutcomeView {
    Exited { code: Option<i32>, stdout: Seq<char>, stderr: Seq<char> },
    SpawnFailed { reason: Seq<char> },
}

impl View for Outcome {
    type V = OutcomeView;

    open spec fn view(&self) -> OutcomeView {
        match self {
            Outcome::Exited { code, stdout, stderr } => OutcomeView::Exited {
                code: *code,
                stdout: stdout@,
                stderr: stderr@,
            },
            Outcome::SpawnFailed { reason } => OutcomeView::SpawnFailed { reason: reason@ },
        }
    }
}

/// The status message of a run that succeeded.
pub open spec fn success_line() -> Seq<char> {
    "Build succeeded."@
}

/// The status message of a run that ended with `code`: success for code 0,
/// failure with the code for any other, failure with `None` for a missing one.
pub open spec fn status_line(code: Option<i32>) -> Seq<char> {
    match code {
        Some(c) => if c == 0 {
            success_line()
        } else {
            "Build failed with code Some("@ + decimal(c as int) + ")"@
        },
        None => "Build failed with code None"@,
    }
}

/// The message for a build tool that could not be started.
pub open spec fn spawn_failure_line(reason: Seq<char>) -> Seq<char> {
    "Command failed: "@ + reason
}

/// `text` as a message of its own, unless it is empty.
pub open spec fn unless_empty(text: Seq<char>) -> Seq<Seq<char>> {
    if text.len() > 0 {
        seq![text]
    } else {
        Seq::empty()
    }
}

/// The messages for one finished run, in order: what it wrote to standard
/// output, what it wrote to standard error, each only if there is any, and
/// one status message.
pub open spec fn report(outcome: OutcomeView) -> Seq<Seq<char>> {
    match outcome {
        OutcomeView::Exited { code, stdout, stderr } => unless_empty(stdout) + unless_empty(stderr)
            + seq![status_line(code)],
        OutcomeView::SpawnFailed { reason } => seq![spawn_failure_line(reason)],
    }
}

/// Only exit code 0 reads as success: the status message of any other code,
/// and of a missing one, differs from the success message.
pub proof fn lemma_failure_is_told(code: Option<i32>)
    ensures
        status_line(code) == success_line() <==> code == Some(0i32),
{
    reveal_strlit("Build succeeded.");
    reveal_strlit("Build failed with code Some(");
    reveal_strlit("Build failed with code None");
    if code != Some(0i32) {
        assert(status_line(code)[6] == 'f');
        assert(success_line()[6] == 's');
    }
}

/// A report ends with its one status message; what comes before it is
/// captured output.
pub proof fn lemma_report_ends_with_status(outcome: OutcomeView)
    ensures
        report(outcome).len() >= 1,
        report(outcome).last() == match outcome {
            OutcomeView::Exited { code, .. } => status_line(code),
            OutcomeView::SpawnFailed { reason } => spawn_failure_line(reason),
        },
        report(outcome).drop_last() == match outcome {
            OutcomeView::Exited { stdout, stderr, .. } => unless_empty(stdout) + unless_empty(stderr),
            OutcomeView::SpawnFailed { .. } => Seq::empty(),
        },
{
    match outcome {
        OutcomeView::Exited { code, stdout, stderr } => {
            let captured = unless_empty(stdout) + unless_empty(stderr);
            assert(report(outcome).drop_last() =~= captured);
        },
        OutcomeView::SpawnFailed { reason } => {
            assert(report(outcome).drop_last() =~= Seq::<Seq<char>>::empty());
        },
    }
}

/// Writes the status message for an exit code.
pub fn status_message(code: Option<i32>) -> (line: String)
    ensures
        line@ == status_line(code),
{
    match code {
        Some(c) => {
            if c == 0 {
                "Build succeeded.".to_owned()
            } else {
                let mut line = "Build failed with code Some(".to_owned();
                let number = decimal_text(c);
                line.append(number.as_str());
                line.append(")");
                line
            }
        },
        None => "Build failed with code None".to_owned(),
    }
}

/// What `String::from_utf8_lossy` makes of `bytes`: the text they encode,
/// with the replacement character in place of each stretch that is not UTF-8.
pub uninterp spec fn utf8_lossy(bytes: Seq<u8>) -> Seq<char>;

/// Calls `String::from_utf8_lossy` and owns the result. Trusted: the text is
/// whatever that function decodes from the bytes, which depends on the bytes
/// alone; bytes that are UTF-8 throughout come back as the text they encode,
/// unchanged.
#[verifier::external_body]
fn decode_lossy(bytes: &[u8]) -> (text: String)
    ensures
        text@ == utf8_lossy(bytes@),
        valid_utf8(bytes@) ==> text@ == decode_utf8(bytes@),
{
    String::from_utf8_lossy(bytes).into_owned()
}

impl Outcome {
    /// The outcome of a process that ran to its end, from what was captured
    /// of it: its exit code, where it has one, and the bytes it wrote.
    pub fn from_capture(code: Option<i32>, stdout: &[u8], stderr: &[u8]) -> (outcome: Outcome)
        ensures
            outcome@ == (OutcomeView::Exited {
                code,
                stdout: utf8_lossy(stdout@),
                stderr: utf8_lossy(stderr@),
            }),
            valid_utf8(stdout@) ==> utf8_lossy(stdout@) == decode_utf8(stdout@),
            valid_utf8(stderr@) ==> utf8_lossy(stderr@) == decode_utf8(stderr@),
    {
        Outcome::Exited { code, stdout: decode_lossy(stdout), stderr: decode_lossy(stderr) }
    }

    /// The messages for this run, in the order in which they are shown.
    pub fn report(&self) -> (messages: Vec<String>)
        ensures
            messages.deep_view() == report(self@),
    {
        let mut messages: Vec<String> = Vec::new();
        match self {
            Outcome::Exited { code, stdout, stderr } => {
                if !stdout.as_str().is_empty() {
                    messages.push(stdout.clone());
                }
                if !stderr.as_str().is_empty() {
                    messages.push(stderr.clone());
                }
                messages.push(status_message(*code));
            },
            Outcome::SpawnFailed { reason } => {
                let mut line = "Command failed: ".to_owned();
                line.append(reason.as_str());
                messages.push(line);
            },
        }
        assert(messages.deep_view() =~= report(self@));
        messages
    }
}

} // verus!
