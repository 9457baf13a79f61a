//! The aggregator: one result for the caller out of the outcomes of a batch.

use vstd::prelude::*;
use vstd::string::StringExecFns;
use crate::dispatch::GenerationOutcome;
use crate::text::texts;

verus! {

/// What the caller of a generation request gets back.
#[derive(Clone, Debug)]
pub struct GenerationResult {
    /// The paths of the images that were produced, in the order in which
    /// they were produced.
    pub images: Vec<String>,
    /// A summary of what failed; `None` where nothing did.
    pub error: Option<String>,
}

/// The text of an optional string.
pub open spec fn option_text(s: Option<String>) -> Option<Seq<char>> {
    match s {
        Some(text) => Some(text@),
        None => None,
    }
}

/// What the summary of an unreachable engine starts with.
pub open spec fn unreachable_prefix() -> Seq<char> {
    "Generation failed: "@
}

/// What the line of a failed image starts with.
pub open spec fn failure_prefix() -> Seq<char> {
    "Error: "@
}

/// The line that a failed image adds to the summary.
pub open spec fn failure_line(message: Seq<char>) -> Seq<char> {
    failure_prefix() + message + seq!['\n']
}

/// Whether any outcome says that the engine was unreachable.
pub open spec fn has_unreachable(outcomes: Seq<GenerationOutcome>) -> bool {
    exists|i: int| 0 <= i < outcomes.len() && #[trigger] outcomes[i] is EngineUnreachable
}

/// The message of the first outcome that says that the engine was
/// unreachable.
pub open spec fn unreachable_message(outcomes: Seq<GenerationOutcome>) -> Seq<char>
    decreases outcomes.len(),
{
    if outcomes.len() == 0 {
        Seq::empty()
    } else {
        match outcomes[0] {
            GenerationOutcome::EngineUnreachable(message) => message@,
            _ => unreachable_message(outcomes.drop_first()),
        }
    }
}

/// The paths of the images that were produced, in the order of the
/// outcomes.
pub open spec fn artifact_paths(outcomes: Seq<GenerationOutcome>) -> Seq<Seq<char>>
    decreases outcomes.len(),
{
    if outcomes.len() == 0 {
        Seq::empty()
    } else {
        let before = artifact_paths(outcomes.drop_last());
        match outcomes.last() {
            GenerationOutcome::Artifact(path) => before.push(path@),
            _ => before,
        }
    }
}

/// The lines of the images that failed, in the order of the outcomes.
pub open spec fn failure_lines(outcomes: Seq<GenerationOutcome>) -> Seq<char>
    decreases outcomes.len(),
{
    if outcomes.len() == 0 {
        Seq::empty()
    } else {
        let before = failure_lines(outcomes.drop_last());
        match outcomes.last() {
            GenerationOutcome::InvocationFailed(message) => before + failure_line(message@),
            _ => before,
        }
    }
}

/// How many of the outcomes are failures of one image.
pub open spec fn failure_count(outcomes: Seq<GenerationOutcome>) -> nat
    decreases outcomes.len(),
{
    if outcomes.len() == 0 {
        0
    } else {
        let before = failure_count(outcomes.drop_last());
        if outcomes.last() is InvocationFailed {
            before + 1
        } else {
            before
        }
    }
}

/// The images of the aggregate: none where the engine was unreachable, else
/// every image that was produced.
pub open spec fn aggregated_images(outcomes: Seq<GenerationOutcome>) -> Seq<Seq<char>> {
    if has_unreachable(outcomes) {
        Seq::empty()
    } else {
        artifact_paths(outcomes)
    }
}

/// The error of the aggregate: where the engine was unreachable, what it
/// said; else the lines of the images that failed, or nothing where none
/// did.
pub open spec fn aggregated_error(outcomes: Seq<GenerationOutcome>) -> Option<Seq<char>> {
    if has_unreachable(outcomes) {
        Some(unreachable_prefix() + unreachable_message(outcomes))
    } else if failure_count(outcomes) == 0 {
        None
    } else {
        Some(failure_lines(outcomes))
    }
}

proof fn lemma_unreachable_message(outcomes: Seq<GenerationOutcome>, at: int)
    requires
        0 <= at < outcomes.len(),
        outcomes[at] is EngineUnreachable,
        forall|i: int| 0 <= i < at ==> !(#[trigger] outcomes[i] is EngineUnreachable),
    ensures
        unreachable_message(outcomes) == outcomes[at]->EngineUnreachable_0@,
    decreases at,
{
    if at > 0 {
        assert(!(outcomes[0] is EngineUnreachable));
        let rest = outcomes.drop_first();
        assert forall|i: int| 0 <= i < at - 1 implies !(#[trigger] rest[i] is EngineUnreachable) by {
            assert(rest[i] == outcomes[i + 1]);
        }
        assert(rest[at - 1] == outcomes[at]);
        lemma_unreachable_message(rest, at - 1);
    }
}

/// Merges the outcomes of a batch into one result. The images that were
/// produced are listed in order, and the images that failed are summed up
/// beside them. Where the engine was unreachable the whole request counts
/// as failed: no image is listed.
pub fn aggregate(outcomes: &Vec<GenerationOutcome>) -> (result: GenerationResult)
    ensures
        texts(result.images@) == aggregated_images(outcomes@),
        option_text(result.error) == aggregated_error(outcomes@),
{
    let mut images: Vec<String> = Vec::new();
    let mut summary = String::new();
    let mut failed = false;
    let mut i: usize = 0;
    while i < outcomes.len()
        invariant
            i <= outcomes.len(),
            forall|k: int| 0 <= k < i ==> !(#[trigger] outcomes[k] is EngineUnreachable),
            texts(images@) == artifact_paths(outcomes@.take(i as int)),
            summary@ == failure_lines(outcomes@.take(i as int)),
            failed == (failure_count(outcomes@.take(i as int)) > 0),
        decreases outcomes.len() - i,
    {
        proof {
            let next = outcomes@.take(i + 1);
            assert(next.drop_last() == outcomes@.take(i as int));
            assert(next.last() == outcomes@[i as int]);
        }
        match &outcomes[i] {
            GenerationOutcome::Artifact(path) => {
                let ghost before = images@;
                images.push(path.clone());
                assert(texts(images@) == texts(before).push(path@));
            },
            GenerationOutcome::InvocationFailed(message) => {
                summary.append("Error: ");
                summary.append(message.as_str());
                summary.append("\n");
                failed = true;
                proof {
                    reveal_strlit("\n");
                    assert("\n"@ == seq!['\n']);
                }
            },
            GenerationOutcome::EngineUnreachable(message) => {
                proof {
                    lemma_unreachable_message(outcomes@, i as int);
                }
                let error = String::from_str("Generation failed: ").concat(message.as_str());
                let none: Vec<String> = Vec::new();
                assert(texts(none@) == Seq::<Seq<char>>::empty());
                return GenerationResult { images: none, error: Some(error) };
            },
        }
        i += 1;
    }
    assert(outcomes@.take(outcomes.len() as int) == outcomes@);
    assert(!has_unreachable(outcomes@));
    let error = if failed {
        Some(summary)
    } else {
        None
    };
    GenerationResult { images, error }
}

proof fn lemma_counts(outcomes: Seq<GenerationOutcome>)
    requires
        !has_unreachable(outcomes),
    ensures
        artifact_paths(outcomes).len() + failure_count(outcomes) == outcomes.len(),
        failure_count(outcomes) > 0 ==> failure_lines(outcomes).len() > 0,
    decreases outcomes.len(),
{
    if outcomes.len() > 0 {
        let front = outcomes.drop_last();
        assert(!has_unreachable(front)) by {
            if has_unreachable(front) {
                let i = choose|i: int| 0 <= i < front.len() && #[trigger] front[i] is EngineUnreachable;
                assert(outcomes[i] is EngineUnreachable);
            }
        }
        lemma_counts(front);
        assert(!(outcomes[outcomes.len() - 1] is EngineUnreachable));
        reveal_strlit("Error: ");
    }
}

/// Where the engine was never unreachable, every outcome is either an image
/// of the aggregate or a failure, and the aggregate has an error exactly
/// where not every outcome is an image; that error is never empty.
pub proof fn lemma_partial_failure(outcomes: Seq<GenerationOutcome>)
    requires
        !has_unreachable(outcomes),
    ensures
        aggregated_images(outcomes).len() + failure_count(outcomes) == outcomes.len(),
        aggregated_error(outcomes) is None <==> aggregated_images(outcomes).len()
            == outcomes.len(),
        aggregated_error(outcomes) matches Some(summary) ==> summary.len() > 0,
{
    lemma_counts(outcomes);
}

/// Where the engine was unreachable, the aggregate holds no image, however
/// many were produced before, and its error is not empty.
pub proof fn lemma_unreachable_fails_request(outcomes: Seq<GenerationOutcome>)
    requires
        has_unreachable(outcomes),
    ensures
        aggregated_images(outcomes).len() == 0,
        aggregated_error(outcomes) matches Some(summary) && summary.len() > 0,
{
    reveal_strlit("Generation failed: ");
}


} // verus!
