use pyros_app::aggregate::{aggregate, GenerationResult};
use pyros_app::dispatch::{dispatch, Dispatcher, GenerationOutcome};
use std::cell::{Cell, RefCell};

fn artifact(path: &str) -> GenerationOutcome {
    GenerationOutcome::Artifact(path.to_string())
}

fn failed(message: &str) -> GenerationOutcome {
    GenerationOutcome::InvocationFailed(message.to_string())
}

fn unreachable_engine(message: &str) -> GenerationOutcome {
    GenerationOutcome::EngineUnreachable(message.to_string())
}

fn is_artifact(outcome: &GenerationOutcome, path: &str) -> bool {
    match outcome {
        GenerationOutcome::Artifact(p) => p == path,
        _ => false,
    }
}

fn is_failed(outcome: &GenerationOutcome, message: &str) -> bool {
    match outcome {
        GenerationOutcome::InvocationFailed(m) => m == message,
        _ => false,
    }
}

fn is_unreachable(outcome: &GenerationOutcome, message: &str) -> bool {
    match outcome {
        GenerationOutcome::EngineUnreachable(m) => m == message,
        _ => false,
    }
}

fn aggregate_of(outcomes: Vec<GenerationOutcome>) -> GenerationResult {
    aggregate(&outcomes)
}

#[test]
fn dispatch_makes_one_call_per_image() {
    for count in [0u32, 1, 2, 5, 17] {
        let calls = Cell::new(0u32);
        let engine = |_: &str, _: u32, _: u32| {
            calls.set(calls.get() + 1);
            artifact(&format!("out/{}.png", calls.get()))
        };
        let outcomes = dispatch(&engine, "a cat", count, 64, 32);
        assert_eq!(outcomes.len() as u32, count);
        assert_eq!(calls.get(), count);
        for (i, outcome) in outcomes.iter().enumerate() {
            assert!(is_artifact(outcome, &format!("out/{}.png", i + 1)));
        }
    }
}

#[test]
fn dispatch_hands_the_same_prompt_and_size_to_each_call() {
    let seen = RefCell::new(Vec::new());
    let engine = |prompt: &str, width: u32, height: u32| {
        seen.borrow_mut().push((prompt.to_string(), width, height));
        artifact("x.png")
    };
    dispatch(&engine, "a red cat", 3, 640, 480);
    assert_eq!(
        *seen.borrow(),
        vec![
            ("a red cat".to_string(), 640, 480),
            ("a red cat".to_string(), 640, 480),
            ("a red cat".to_string(), 640, 480),
        ]
    );
}

#[test]
fn failure_of_one_image_does_not_end_the_batch() {
    let calls = Cell::new(0u32);
    let engine = |_: &str, _: u32, _: u32| {
        calls.set(calls.get() + 1);
        if calls.get() == 2 {
            failed("out of memory")
        } else {
            artifact(&format!("out/{}.png", calls.get()))
        }
    };
    let outcomes = dispatch(&engine, "a cat", 3, 64, 64);
    assert_eq!(calls.get(), 3);
    assert_eq!(outcomes.len(), 3);
    assert!(is_artifact(&outcomes[0], "out/1.png"));
    assert!(is_failed(&outcomes[1], "out of memory"));
    assert!(is_artifact(&outcomes[2], "out/3.png"));
    let result = aggregate(&outcomes);
    assert_eq!(result.images, vec!["out/1.png".to_string(), "out/3.png".to_string()]);
    assert_eq!(result.error, Some("Error: out of memory\n".to_string()));
}

#[test]
fn unreachable_engine_ends_the_batch() {
    let calls = Cell::new(0u32);
    let engine = |_: &str, _: u32, _: u32| {
        calls.set(calls.get() + 1);
        if calls.get() == 1 {
            unreachable_engine("no such program")
        } else {
            artifact("out/late.png")
        }
    };
    let outcomes = dispatch(&engine, "a cat", 2, 64, 64);
    assert_eq!(calls.get(), 1);
    assert_eq!(outcomes.len(), 1);
    assert!(is_unreachable(&outcomes[0], "no such program"));
    let result = aggregate(&outcomes);
    assert!(result.images.is_empty());
    assert_eq!(result.error, Some("Generation failed: no such program".to_string()));
}

#[test]
fn unreachable_engine_in_mid_batch_stops_further_calls() {
    let calls = Cell::new(0u32);
    let engine = |_: &str, _: u32, _: u32| {
        calls.set(calls.get() + 1);
        if calls.get() == 3 {
            unreachable_engine("gone")
        } else {
            artifact(&format!("out/{}.png", calls.get()))
        }
    };
    let outcomes = dispatch(&engine, "a cat", 10, 64, 64);
    assert_eq!(calls.get(), 3);
    assert_eq!(outcomes.len(), 3);
    assert!(is_unreachable(&outcomes[2], "gone"));
    let result = aggregate(&outcomes);
    assert!(result.images.is_empty());
    assert_eq!(result.error, Some("Generation failed: gone".to_string()));
}

#[test]
fn batch_asks_for_calls_until_it_is_full() {
    let mut batch = Dispatcher::new("a cat".to_string(), 2, 64, 32);
    assert!(!batch.is_done());
    let call = batch.next().unwrap();
    assert_eq!(call.prompt, "a cat");
    assert_eq!(call.width, 64);
    assert_eq!(call.height, 32);
    assert!(batch.record(artifact("1.png")));
    assert!(!batch.is_done());
    assert!(batch.next().is_some());
    assert!(batch.record(failed("bad")));
    assert!(batch.is_done());
    assert!(batch.next().is_none());
    let outcomes = batch.into_outcomes();
    assert_eq!(outcomes.len(), 2);
    assert!(is_artifact(&outcomes[0], "1.png"));
    assert!(is_failed(&outcomes[1], "bad"));
}

#[test]
fn full_batch_refuses_another_outcome() {
    let mut batch = Dispatcher::new("a cat".to_string(), 1, 64, 64);
    assert!(batch.record(artifact("1.png")));
    assert!(!batch.record(artifact("2.png")));
    assert!(!batch.record(unreachable_engine("gone")));
    let outcomes = batch.into_outcomes();
    assert_eq!(outcomes.len(), 1);
    assert!(is_artifact(&outcomes[0], "1.png"));
}

#[test]
fn halted_batch_refuses_another_outcome() {
    let mut batch = Dispatcher::new("a cat".to_string(), 5, 64, 64);
    assert!(batch.record(artifact("1.png")));
    assert!(batch.record(unreachable_engine("gone")));
    assert!(batch.is_done());
    assert!(batch.next().is_none());
    assert!(!batch.record(artifact("2.png")));
    assert_eq!(batch.into_outcomes().len(), 2);
}

#[test]
fn batch_of_no_images_is_done_at_once() {
    let mut batch = Dispatcher::new("a cat".to_string(), 0, 64, 64);
    assert!(batch.is_done());
    assert!(batch.next().is_none());
    assert!(!batch.record(artifact("1.png")));
    assert!(batch.into_outcomes().is_empty());
}

#[test]
fn aggregate_of_nothing_is_empty_and_without_error() {
    let result = aggregate_of(Vec::new());
    assert!(result.images.is_empty());
    assert_eq!(result.error, None);
}

#[test]
fn aggregate_of_successes_has_no_error() {
    let result = aggregate_of(vec![artifact("a.png"), artifact("b.png"), artifact("c.png")]);
    assert_eq!(
        result.images,
        vec!["a.png".to_string(), "b.png".to_string(), "c.png".to_string()]
    );
    assert_eq!(result.error, None);
}

#[test]
fn aggregate_keeps_successes_beside_failures() {
    let result = aggregate_of(vec![
        failed("first"),
        artifact("a.png"),
        failed("second"),
        artifact("b.png"),
    ]);
    assert_eq!(result.images, vec!["a.png".to_string(), "b.png".to_string()]);
    assert_eq!(result.error, Some("Error: first\nError: second\n".to_string()));
}

#[test]
fn aggregate_counts_successes_and_failures() {
    for n in 0..6usize {
        for k in 0..=n {
            let mut outcomes = Vec::new();
            for i in 0..n {
                if i < k {
                    outcomes.push(artifact(&format!("{}.png", i)));
                } else {
                    outcomes.push(failed(""));
                }
            }
            let result = aggregate(&outcomes);
            assert_eq!(result.images.len(), k);
            assert_eq!(result.error.is_none(), k == n);
            if let Some(summary) = result.error {
                assert!(!summary.is_empty());
            }
        }
    }
}

#[test]
fn aggregate_of_failures_only_returns_an_error() {
    let result = aggregate_of(vec![failed("x"), failed("y")]);
    assert!(result.images.is_empty());
    assert_eq!(result.error, Some("Error: x\nError: y\n".to_string()));
}

#[test]
fn aggregate_of_a_failure_without_message_is_not_empty() {
    let result = aggregate_of(vec![failed("")]);
    assert_eq!(result.error, Some("Error: \n".to_string()));
}

#[test]
fn aggregate_drops_images_when_engine_was_unreachable() {
    let result = aggregate_of(vec![
        artifact("a.png"),
        artifact("b.png"),
        failed("x"),
        unreachable_engine("engine gone"),
    ]);
    assert!(result.images.is_empty());
    assert_eq!(result.error, Some("Generation failed: engine gone".to_string()));
}

#[test]
fn aggregate_reports_the_first_unreachable_engine() {
    let result = aggregate_of(vec![
        unreachable_engine("first"),
        artifact("a.png"),
        unreachable_engine("second"),
    ]);
    assert!(result.images.is_empty());
    assert_eq!(result.error, Some("Generation failed: first".to_string()));
}

#[test]
fn aggregate_of_an_unreachable_engine_without_message_is_not_empty() {
    let result = aggregate_of(vec![unreachable_engine("")]);
    assert!(result.images.is_empty());
    assert_eq!(result.error, Some("Generation failed: ".to_string()));
}
