//! A generation request from its arrival to its result.
//!
//! The template is resolved against the variable store, the resolved prompt
//! is dispatched to the engine once for each image, and what the engine gave
//! is merged into one result.

use vstd::prelude::*;
use vstd::string::StringExecFns;
use crate::aggregate::{aggregate, aggregated_error, aggregated_images, option_text, GenerationResult};
use crate::dispatch::{dispatch, is_finished, GenerationOutcome};
use crate::random::RandomSource;
use crate::template::{resolve, resolved, state_after};
use crate::text::texts;
use crate::variables::VariableStore;

verus! {

/// Why the variable store could not be read.
#[derive(Clone, Debug)]
pub struct StoreUnavailable {
    pub reason: String,
}

/// What a caller asks for: a number of images of one size, all made from
/// one prompt template. The number, the width and the height are positive.
pub struct GenerationRequest {
    prompt: String,
    count: u32,
    width: u32,
    height: u32,
}

impl GenerationRequest {
    #[verifier::type_invariant]
    spec fn positive(self) -> bool {
        self.count > 0 && self.width > 0 && self.height > 0
    }

    /// The prompt template of the request.
    pub closed spec fn template(self) -> Seq<char> {
        self.prompt@
    }

    /// The number of images asked for.
    pub closed spec fn images(self) -> u32 {
        self.count
    }

    /// The width of the images asked for.
    pub closed spec fn image_width(self) -> u32 {
        self.width
    }

    /// The height of the images asked for.
    pub closed spec fn image_height(self) -> u32 {
        self.height
    }

    /// A request for `count` images of `width` by `height` from `prompt`;
    /// `None` where one of the three numbers is zero.
    pub fn new(prompt: String, count: u32, width: u32, height: u32) -> (request: Option<
        GenerationRequest,
    >)
        ensures
            request is Some <==> count > 0 && width > 0 && height > 0,
            request matches Some(r) ==> r.template() == prompt@ && r.images() == count
                && r.image_width() == width && r.image_height() == height,
    {
        if count == 0 || width == 0 || height == 0 {
            None
        } else {
            Some(GenerationRequest { prompt, count, width, height })
        }
    }

    /// The prompt template of the request.
    pub fn prompt(&self) -> (prompt: &String)
        ensures
            prompt@ == self.template(),
    {
        &self.prompt
    }

    /// The number of images asked for.
    pub fn count(&self) -> (count: u32)
        ensures
            count == self.images(),
            count > 0,
    {
        proof {
            use_type_invariant(self);
        }
        self.count
    }

    /// The width of the images asked for.
    pub fn width(&self) -> (width: u32)
        ensures
            width == self.image_width(),
            width > 0,
    {
        proof {
            use_type_invariant(self);
        }
        self.width
    }

    /// The height of the images asked for.
    pub fn height(&self) -> (height: u32)
        ensures
            height == self.image_height(),
            height > 0,
    {
        proof {
            use_type_invariant(self);
        }
        self.height
    }
}

/// What the error of a request starts with where the variable store could
/// not be read.
pub open spec fn store_unavailable_prefix() -> Seq<char> {
    "Variable store unavailable: "@
}

/// Whether `outcomes` are what a finished batch of `count` calls of `engine`
/// with `prompt`, `width` and `height` can have given.
pub open spec fn batch_of<F: Fn(&str, u32, u32) -> GenerationOutcome>(
    engine: &F,
    prompt: &str,
    count: u32,
    width: u32,
    height: u32,
    outcomes: Seq<GenerationOutcome>,
) -> bool {
    &&& is_finished(outcomes, count as int)
    &&& forall|i: int|
        0 <= i < outcomes.len() ==> call_ensures(
            engine,
            (prompt, width, height),
            #[trigger] outcomes[i],
        )
}

/// Serves a request. Where the variable store could not be read the request
/// fails with that as its error, and the engine is not called. Else the
/// template is resolved with draws from `source`, the engine is called with
/// the resolved prompt once for each image, and the outcomes are merged.
pub fn generate<F: Fn(&str, u32, u32) -> GenerationOutcome>(
    request: &GenerationRequest,
    store: &Result<VariableStore, StoreUnavailable>,
    source: &mut RandomSource,
    engine: &F,
) -> (result: GenerationResult)
    requires
        store matches Ok(variables) ==> variables.wf(),
        forall|prompt: &str|
            call_requires(engine, (prompt, request.image_width(), request.image_height())),
    ensures
        match store {
            Err(unavailable) => {
                &&& result.images@.len() == 0
                &&& option_text(result.error) == Some(
                    store_unavailable_prefix() + unavailable.reason@,
                )
                &&& final(source)@ == old(source)@
            },
            Ok(variables) => {
                &&& final(source)@ == state_after(request.template(), variables@, old(source)@)
                &&& exists|prompt: &str, outcomes: Seq<GenerationOutcome>|
                    {
                        &&& prompt@ == resolved(request.template(), variables@, old(source)@)
                        &&& #[trigger] batch_of(
                            engine,
                            prompt,
                            request.images(),
                            request.image_width(),
                            request.image_height(),
                            outcomes,
                        )
                        &&& texts(result.images@) == aggregated_images(outcomes)
                        &&& option_text(result.error) == aggregated_error(outcomes)
                    }
            },
        },
{
    match store {
        Err(unavailable) => {
            let error = String::from_str("Variable store unavailable: ").concat(
                unavailable.reason.as_str(),
            );
            GenerationResult { images: Vec::new(), error: Some(error) }
        },
        Ok(variables) => {
            let resolved_prompt = resolve(request.prompt().as_str(), variables, source);
            let prompt: &str = resolved_prompt.as_str();
            let outcomes = dispatch(
                engine,
                prompt,
                request.count(),
                request.width(),
                request.height(),
            );
            let result = aggregate(&outcomes);
            assert(batch_of(
                engine,
                prompt,
                request.images(),
                request.image_width(),
                request.image_height(),
                outcomes@,
            ));
            result
        },
    }
}

} // verus!
