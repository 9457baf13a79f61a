//! Reading what one run of the generation engine left behind.
//!
//! The engine is a process. It is asked for one image, prints the paths of
//! what it produced as a JSON array of strings, and writes what went wrong
//! to its error stream. A run that ends with a failure status means that
//! the engine could not do its work at all.

use vstd::prelude::*;
use vstd::string::StringExecFns;
use crate::dispatch::GenerationOutcome;
use crate::text::{chars_of, string_of, texts};

verus! {

/// What one run of the engine process left behind.
#[derive(Clone, Debug)]
pub struct EngineRun {
    /// Whether the process ended with a success status.
    pub success: bool,
    /// What the process printed.
    pub stdout: String,
    /// What the process wrote to its error stream.
    pub stderr: String,
}

/// The characters that count as white space: those with the Unicode
/// property `White_Space`.
pub open spec fn is_whitespace(c: char) -> bool {
    ||| '\u{9}' <= c <= '\u{d}'
    ||| c == ' '
    ||| c == '\u{85}'
    ||| c == '\u{a0}'
    ||| c == '\u{1680}'
    ||| '\u{2000}' <= c <= '\u{200a}'
    ||| c == '\u{2028}'
    ||| c == '\u{2029}'
    ||| c == '\u{202f}'
    ||| c == '\u{205f}'
    ||| c == '\u{3000}'
}

/// Where the white space that starts at `from` ends.
pub open spec fn space_end(s: Seq<char>, from: int) -> int
    decreases s.len() - from,
{
    if 0 <= from < s.len() && is_whitespace(s[from]) {
        space_end(s, from + 1)
    } else {
        from
    }
}

/// Where the white space that ends at `to` starts, looking no further back
/// than `floor`.
pub open spec fn space_start(s: Seq<char>, floor: int, to: int) -> int
    decreases to - floor,
{
    if floor < to <= s.len() && is_whitespace(s[to - 1]) {
        space_start(s, floor, to - 1)
    } else {
        to
    }
}

/// `s` without the white space at its start and at its end.
pub open spec fn trimmed(s: Seq<char>) -> Seq<char> {
    let from = space_end(s, 0);
    s.subrange(from, space_start(s, from, s.len() as int))
}

/// Whether `c` counts as white space.
pub fn whitespace(c: char) -> (space: bool)
    ensures
        space == is_whitespace(c),
{
    ('\u{9}' <= c && c <= '\u{d}') || c == ' ' || c == '\u{85}' || c == '\u{a0}' || c
        == '\u{1680}' || ('\u{2000}' <= c && c <= '\u{200a}') || c == '\u{2028}' || c
        == '\u{2029}' || c == '\u{202f}' || c == '\u{205f}' || c == '\u{3000}'
}

/// `text` without the white space at its start and at its end.
pub fn trim(text: &str) -> (inner: String)
    ensures
        inner@ == trimmed(text@),
{
    let s = chars_of(text);
    let n: usize = s.len();
    let mut from: usize = 0;
    while from < n && whitespace(s[from])
        invariant
            from <= n,
            n == s.len(),
            space_end(s@, 0) == space_end(s@, from as int),
        decreases n - from,
    {
        from += 1;
    }
    let mut to: usize = n;
    while to > from && whitespace(s[to - 1])
        invariant
            from <= to <= n,
            n == s.len(),
            space_start(s@, from as int, n as int) == space_start(s@, from as int, to as int),
        decreases to,
    {
        to -= 1;
    }
    string_of(&s, from, to)
}

/// `serde_json::Error`: why a text could not be read as the JSON value that
/// was asked for. Nothing is claimed of what it holds.
#[verifier::external_type_specification]
#[verifier::external_body]
pub struct ExJsonError(serde_json::Error);

/// The strings of the JSON array that `text` is; `None` where `text` is not
/// a JSON array of strings and nothing else.
pub uninterp spec fn json_string_list(text: Seq<char>) -> Option<Seq<Seq<char>>>;

/// `serde_json::from_str` for a list of strings. It reads the whole of
/// `text` as one JSON value and gives the strings of the array, or the error
/// that stopped it; of the same text it gives the same.
#[verifier::external_body]
fn parse_string_list(text: &str) -> (parsed: Result<Vec<String>, serde_json::Error>)
    ensures
        match parsed {
            Ok(list) => json_string_list(text@) == Some(texts(list@)),
            Err(_) => json_string_list(text@) is None,
        },
{
    serde_json::from_str::<Vec<String>>(text)
}

/// What is reported where the engine's output cannot be read: what the
/// reader said, and the output itself.
pub open spec fn unreadable_output(detail: Seq<char>, stdout: Seq<char>) -> Seq<char> {
    "Failed to parse output: "@ + detail + " - "@ + stdout
}

/// The outcome of a run that ended with a success status, by what its
/// output was read as.
pub open spec fn reply_outcome(
    outcome: GenerationOutcome,
    reply: Result<Seq<Seq<char>>, Seq<char>>,
    stdout: Seq<char>,
    stderr: Seq<char>,
) -> bool {
    match reply {
        Ok(paths) => if paths.len() > 0 {
            (outcome matches GenerationOutcome::Artifact(path) && path@ == paths[0])
        } else {
            (outcome matches GenerationOutcome::InvocationFailed(message) && message@ == stderr)
        },
        Err(detail) => (outcome matches GenerationOutcome::InvocationFailed(message) && message@
            == unreadable_output(detail, stdout)),
    }
}

/// The text of a reply.
pub open spec fn reply_text(reply: Result<Vec<String>, String>) -> Result<
    Seq<Seq<char>>,
    Seq<char>,
> {
    match reply {
        Ok(paths) => Ok(texts(paths@)),
        Err(detail) => Err(detail@),
    }
}

/// The outcome of a run that ended with a success status. `reply` is what
/// its output was read as: the paths it printed, or why they could not be
/// read. The first path is the image. A run that printed no path failed for
/// its image, and what it wrote to its error stream says why.
pub fn interpret_reply(reply: Result<Vec<String>, String>, run: &EngineRun) -> (outcome:
    GenerationOutcome)
    ensures
        reply_outcome(outcome, reply_text(reply), run.stdout@, run.stderr@),
{
    match reply {
        Ok(paths) => {
            if paths.len() > 0 {
                GenerationOutcome::Artifact(paths[0].clone())
            } else {
                GenerationOutcome::InvocationFailed(run.stderr.clone())
            }
        },
        Err(detail) => {
            let mut message = String::from_str("Failed to parse output: ");
            message.append(detail.as_str());
            message.append(" - ");
            message.append(run.stdout.as_str());
            GenerationOutcome::InvocationFailed(message)
        },
    }
}

/// The outcome of one run of the engine. A run that ended with a failure
/// status found the engine unreachable, and what it wrote to its error
/// stream says why. Else its output, without the white space around it, is
/// read as a JSON array of paths.
pub fn decode_run(run: &EngineRun) -> (outcome: GenerationOutcome)
    ensures
        !run.success ==> (outcome matches GenerationOutcome::EngineUnreachable(message)
            && message@ == run.stderr@),
        run.success ==> match json_string_list(trimmed(run.stdout@)) {
            Some(paths) => reply_outcome(outcome, Ok(paths), run.stdout@, run.stderr@),
            None => exists|detail: Seq<char>|
                reply_outcome(outcome, Err(detail), run.stdout@, run.stderr@),
        },
{
    if !run.success {
        return GenerationOutcome::EngineUnreachable(run.stderr.clone());
    }
    let inner = trim(run.stdout.as_str());
    match parse_string_list(inner.as_str()) {
        Ok(paths) => interpret_reply(Ok(paths), run),
        Err(error) => {
            let detail = error.to_string();
            let outcome = interpret_reply(Err(detail), run);
            assert(reply_outcome(outcome, Err(detail@), run.stdout@, run.stderr@));
            outcome
        },
    }
}

} // verus!
