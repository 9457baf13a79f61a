//! The dispatcher: one call of the generation engine for each requested
//! image, one after the other.
//!
//! A call that fails for its image is recorded and the batch goes on. A call
//! that finds the engine unreachable is recorded too, and ends the batch.
//!
//! [`Dispatcher`] is the batch as a state: it says whether another call is
//! due and takes what the call gave. [`dispatch`] runs a whole batch on an
//! engine that is given as a function.

use vstd::prelude::*;

verus! {

/// What one call of the generation engine gave.
#[derive(Clone, Debug)]
pub enum GenerationOutcome {
    /// The engine produced an image; this is its path.
    Artifact(String),
    /// The engine ran and reported an error for this image.
    InvocationFailed(String),
    /// The engine could not be run at all.
    EngineUnreachable(String),
}

/// Whether the batch has been ended by an unreachable engine.
pub open spec fn halted(outcomes: Seq<GenerationOutcome>) -> bool {
    outcomes.len() > 0 && outcomes.last() is EngineUnreachable
}

/// Whether `outcomes` can be the outcomes of a batch of `count` calls, done
/// or under way: they are no more than `count`, and none but the last says
/// that the engine was unreachable.
pub open spec fn is_batch(outcomes: Seq<GenerationOutcome>, count: int) -> bool {
    &&& outcomes.len() <= count
    &&& forall|i: int| 0 <= i < outcomes.len() - 1 ==> !(#[trigger] outcomes[i] is EngineUnreachable)
}

/// Whether `outcomes` are the outcomes of a finished batch of `count` calls:
/// either all calls were made, or the last one made found the engine
/// unreachable.
pub open spec fn is_finished(outcomes: Seq<GenerationOutcome>, count: int) -> bool {
    is_batch(outcomes, count) && (outcomes.len() == count || halted(outcomes))
}

/// What is handed to the engine for one image.
#[derive(Clone, Debug)]
pub struct Invocation {
    pub prompt: String,
    pub width: u32,
    pub height: u32,
}

/// A batch under way.
pub struct Dispatcher {
    prompt: String,
    count: u32,
    width: u32,
    height: u32,
    outcomes: Vec<GenerationOutcome>,
}

impl View for Dispatcher {
    type V = Seq<GenerationOutcome>;

    /// The outcomes recorded so far.
    closed spec fn view(&self) -> Seq<GenerationOutcome> {
        self.outcomes@
    }
}

impl Dispatcher {
    /// The prompt that every call of the batch is made with.
    pub closed spec fn prompt(self) -> Seq<char> {
        self.prompt@
    }

    /// The number of images asked for.
    pub closed spec fn count(self) -> u32 {
        self.count
    }

    /// The width that every call of the batch is made with.
    pub closed spec fn width(self) -> u32 {
        self.width
    }

    /// The height that every call of the batch is made with.
    pub closed spec fn height(self) -> u32 {
        self.height
    }

    /// What holds of every dispatcher: its outcomes are those of a batch of
    /// `count` calls.
    pub open spec fn wf(self) -> bool {
        is_batch(self@, self.count() as int)
    }

    /// A batch of `count` calls with `prompt`, `width` and `height`, none of
    /// them made yet.
    pub fn new(prompt: String, count: u32, width: u32, height: u32) -> (batch: Dispatcher)
        ensures
            batch.wf(),
            batch@ == Seq::<GenerationOutcome>::empty(),
            batch.prompt() == prompt@,
            batch.count() == count,
            batch.width() == width,
            batch.height() == height,
    {
        Dispatcher { prompt, count, width, height, outcomes: Vec::new() }
    }

    /// Whether the batch is over: all calls were made, or the engine was
    /// found unreachable.
    pub fn is_done(&self) -> (done: bool)
        requires
            self.wf(),
        ensures
            done == is_finished(self@, self.count() as int),
    {
        let n: usize = self.outcomes.len();
        if n > 0 {
            match &self.outcomes[n - 1] {
                GenerationOutcome::EngineUnreachable(_) => {
                    return true;
                },
                _ => {},
            }
        }
        n >= self.count as usize
    }

    /// The call that is due next; `None` where the batch is over.
    pub fn next(&self) -> (due: Option<Invocation>)
        requires
            self.wf(),
        ensures
            due is None <==> is_finished(self@, self.count() as int),
            due matches Some(call) ==> call.prompt@ == self.prompt() && call.width == self.width()
                && call.height == self.height(),
    {
        if self.is_done() {
            None
        } else {
            Some(Invocation { prompt: self.prompt.clone(), width: self.width, height: self.height })
        }
    }

    /// Takes what the call that was due gave. Where the batch is over the
    /// outcome is refused, and the batch stays as it was.
    pub fn record(&mut self, outcome: GenerationOutcome) -> (taken: bool)
        requires
            old(self).wf(),
        ensures
            final(self).wf(),
            taken == !is_finished(old(self)@, old(self).count() as int),
            taken ==> final(self)@ == old(self)@.push(outcome),
            !taken ==> final(self)@ == old(self)@,
            final(self).prompt() == old(self).prompt(),
            final(self).count() == old(self).count(),
            final(self).width() == old(self).width(),
            final(self).height() == old(self).height(),
    {
        if self.is_done() {
            return false;
        }
        let ghost before = self.outcomes@;
        self.outcomes.push(outcome);
        proof {
            assert forall|i: int| 0 <= i < self.outcomes@.len() - 1 implies !(
            #[trigger] self.outcomes@[i] is EngineUnreachable) by {
                assert(self.outcomes@[i] == before[i]);
                if i == before.len() - 1 {
                    assert(before.last() == before[i]);
                }
            }
        }
        true
    }

    /// The outcomes of the batch, in the order in which the calls were made.
    pub fn into_outcomes(self) -> (outcomes: Vec<GenerationOutcome>)
        ensures
            outcomes@ == self@,
    {
        self.outcomes
    }
}

/// Runs a batch of `count` calls of `engine`, each with `prompt`, `width` and
/// `height`, and gives what the calls gave, in order. The batch ends early
/// only where a call finds the engine unreachable.
pub fn dispatch<F: Fn(&str, u32, u32) -> GenerationOutcome>(
    engine: &F,
    prompt: &str,
    count: u32,
    width: u32,
    height: u32,
) -> (outcomes: Vec<GenerationOutcome>)
    requires
        call_requires(engine, (prompt, width, height)),
    ensures
        is_finished(outcomes@, count as int),
        forall|i: int|
            0 <= i < outcomes.len() ==> call_ensures(
                engine,
                (prompt, width, height),
                #[trigger] outcomes[i],
            ),
        (forall|i: int| 0 <= i < outcomes.len() ==> !(#[trigger] outcomes[i] is EngineUnreachable))
            ==> outcomes.len() == count,
{
    let mut batch = Dispatcher::new(prompt.to_owned(), count, width, height);
    while !batch.is_done()
        invariant
            batch.wf(),
            batch.count() == count,
            call_requires(engine, (prompt, width, height)),
            forall|i: int|
                0 <= i < batch@.len() ==> call_ensures(
                    engine,
                    (prompt, width, height),
                    #[trigger] batch@[i],
                ),
        decreases count - batch@.len(),
    {
        let outcome = engine(prompt, width, height);
        batch.record(outcome);
    }
    let outcomes = batch.into_outcomes();
    proof {
        if forall|i: int| 0 <= i < outcomes.len() ==> !(#[trigger] outcomes[i] is EngineUnreachable) {
            if outcomes.len() > 0 {
                assert(!(outcomes[outcomes.len() - 1] is EngineUnreachable));
            }
        }
    }
    outcomes
}

/// A finished batch in which the engine was never unreachable holds one
/// outcome for each image asked for.
pub proof fn lemma_reachable_batch_is_full(outcomes: Seq<GenerationOutcome>, count: int)
    requires
        is_finished(outcomes, count),
        forall|i: int| 0 <= i < outcomes.len() ==> !(#[trigger] outcomes[i] is EngineUnreachable),
    ensures
        outcomes.len() == count,
{
    if outcomes.len() > 0 {
        assert(!(outcomes[outcomes.len() - 1] is EngineUnreachable));
    }
}

/// A batch never holds more outcomes than images were asked for, and once
/// the engine was unreachable nothing follows.
pub proof fn lemma_batch_bounds(outcomes: Seq<GenerationOutcome>, count: int, i: int)
    requires
        is_batch(outcomes, count),
        0 <= i < outcomes.len(),
        outcomes[i] is EngineUnreachable,
    ensures
        outcomes.len() <= count,
        i == outcomes.len() - 1,
{
}

} // verus!
