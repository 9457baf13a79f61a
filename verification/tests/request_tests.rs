use pyros_app::dispatch::GenerationOutcome;
use pyros_app::random::RandomSource;
use pyros_app::request::{generate, GenerationRequest, StoreUnavailable};
use pyros_app::variables::VariableStore;
use std::cell::RefCell;

fn request(prompt: &str, count: u32, width: u32, height: u32) -> GenerationRequest {
    GenerationRequest::new(prompt.to_string(), count, width, height).unwrap()
}

fn colors() -> Result<VariableStore, StoreUnavailable> {
    let mut store = VariableStore::new();
    assert!(store.insert(
        "__color__".to_string(),
        vec!["red".to_string(), "blue".to_string()]
    ));
    Ok(store)
}

#[test]
fn request_needs_positive_numbers() {
    assert!(GenerationRequest::new("a".to_string(), 0, 64, 64).is_none());
    assert!(GenerationRequest::new("a".to_string(), 1, 0, 64).is_none());
    assert!(GenerationRequest::new("a".to_string(), 1, 64, 0).is_none());
    assert!(GenerationRequest::new("a".to_string(), 0, 0, 0).is_none());
    assert!(GenerationRequest::new("".to_string(), 1, 1, 1).is_some());
    assert!(GenerationRequest::new("a".to_string(), u32::MAX, u32::MAX, u32::MAX).is_some());
}

#[test]
fn request_keeps_what_it_was_made_of() {
    let r = request("a __color__ cat", 3, 640, 480);
    assert_eq!(r.prompt(), "a __color__ cat");
    assert_eq!(r.count(), 3);
    assert_eq!(r.width(), 640);
    assert_eq!(r.height(), 480);
}

#[test]
fn generate_resolves_dispatches_and_aggregates() {
    let seen = RefCell::new(Vec::new());
    let engine = |prompt: &str, width: u32, height: u32| {
        seen.borrow_mut().push((prompt.to_string(), width, height));
        GenerationOutcome::Artifact(format!("out/{}.png", seen.borrow().len()))
    };
    let mut source = RandomSource::new(0);
    let result = generate(&request("a __color__ cat, __color__ again", 2, 512, 256), &colors(), &mut source, &engine);
    assert_eq!(result.images, vec!["out/1.png".to_string(), "out/2.png".to_string()]);
    assert_eq!(result.error, None);
    assert_eq!(
        *seen.borrow(),
        vec![
            ("a red cat, blue again".to_string(), 512, 256),
            ("a red cat, blue again".to_string(), 512, 256),
        ]
    );
}

#[test]
fn generate_reports_partial_failure() {
    let calls = RefCell::new(0u32);
    let engine = |_: &str, _: u32, _: u32| {
        *calls.borrow_mut() += 1;
        if *calls.borrow() == 2 {
            GenerationOutcome::InvocationFailed("no memory".to_string())
        } else {
            GenerationOutcome::Artifact(format!("out/{}.png", calls.borrow()))
        }
    };
    let mut source = RandomSource::new(5);
    let result = generate(&request("a cat", 3, 64, 64), &colors(), &mut source, &engine);
    assert_eq!(result.images.len(), 2);
    assert_eq!(result.images, vec!["out/1.png".to_string(), "out/3.png".to_string()]);
    assert_eq!(result.error, Some("Error: no memory\n".to_string()));
}

#[test]
fn generate_fails_whole_request_when_engine_is_unreachable() {
    let calls = RefCell::new(0u32);
    let engine = |_: &str, _: u32, _: u32| {
        *calls.borrow_mut() += 1;
        if *calls.borrow() == 1 {
            GenerationOutcome::EngineUnreachable("cannot start".to_string())
        } else {
            GenerationOutcome::Artifact("out/late.png".to_string())
        }
    };
    let mut source = RandomSource::new(5);
    let result = generate(&request("a cat", 2, 64, 64), &colors(), &mut source, &engine);
    assert!(result.images.is_empty());
    assert_eq!(result.error, Some("Generation failed: cannot start".to_string()));
    assert_eq!(*calls.borrow(), 1);
}

#[test]
fn generate_aborts_when_store_is_unavailable() {
    let calls = RefCell::new(0u32);
    let engine = |_: &str, _: u32, _: u32| {
        *calls.borrow_mut() += 1;
        GenerationOutcome::Artifact("out/a.png".to_string())
    };
    let store: Result<VariableStore, StoreUnavailable> =
        Err(StoreUnavailable { reason: "file is locked".to_string() });
    let mut source = RandomSource::new(9);
    let result = generate(&request("a __color__ cat", 4, 64, 64), &store, &mut source, &engine);
    assert!(result.images.is_empty());
    assert_eq!(result.error, Some("Variable store unavailable: file is locked".to_string()));
    assert_eq!(*calls.borrow(), 0);
    let mut fresh = RandomSource::new(9);
    assert_eq!(source.below(1000), fresh.below(1000));
}

#[test]
fn generate_with_an_empty_store_leaves_the_template() {
    let seen = RefCell::new(Vec::new());
    let engine = |prompt: &str, _: u32, _: u32| {
        seen.borrow_mut().push(prompt.to_string());
        GenerationOutcome::Artifact("out/a.png".to_string())
    };
    let store: Result<VariableStore, StoreUnavailable> = Ok(VariableStore::new());
    let mut source = RandomSource::new(1);
    let result = generate(&request("a __color__ cat", 1, 64, 64), &store, &mut source, &engine);
    assert_eq!(result.images, vec!["out/a.png".to_string()]);
    assert_eq!(*seen.borrow(), vec!["a __color__ cat".to_string()]);
}
