use pyros_app::dispatch::GenerationOutcome;
use pyros_app::engine::{decode_run, interpret_reply, trim, whitespace, EngineRun};

fn run(success: bool, stdout: &str, stderr: &str) -> EngineRun {
    EngineRun { success, stdout: stdout.to_string(), stderr: stderr.to_string() }
}

fn artifact_path(outcome: GenerationOutcome) -> String {
    match outcome {
        GenerationOutcome::Artifact(path) => path,
        other => panic!("no artifact: {:?}", other),
    }
}

fn failure_message(outcome: GenerationOutcome) -> String {
    match outcome {
        GenerationOutcome::InvocationFailed(message) => message,
        other => panic!("no failure: {:?}", other),
    }
}

fn unreachable_message(outcome: GenerationOutcome) -> String {
    match outcome {
        GenerationOutcome::EngineUnreachable(message) => message,
        other => panic!("not unreachable: {:?}", other),
    }
}

#[test]
fn failure_status_means_engine_unreachable() {
    let outcome = decode_run(&run(false, "[\"out/a.png\"]", "uv: command failed"));
    assert_eq!(unreachable_message(outcome), "uv: command failed");
    let outcome = decode_run(&run(false, "", ""));
    assert_eq!(unreachable_message(outcome), "");
}

#[test]
fn printed_path_is_the_artifact() {
    let outcome = decode_run(&run(true, "[\"out/a.png\"]\n", ""));
    assert_eq!(artifact_path(outcome), "out/a.png");
}

#[test]
fn printed_path_is_read_as_json() {
    let outcome = decode_run(&run(true, "[\"out\\/a\\u0041 \\\"q\\\".png\"]", ""));
    assert_eq!(artifact_path(outcome), "out/aA \"q\".png");
    let outcome = decode_run(&run(true, " [ \"caf\u{e9}.png\" ] ", "warning"));
    assert_eq!(artifact_path(outcome), "caf\u{e9}.png");
}

#[test]
fn first_printed_path_is_the_artifact() {
    let outcome = decode_run(&run(true, "[\"one.png\", \"two.png\"]", ""));
    assert_eq!(artifact_path(outcome), "one.png");
}

#[test]
fn white_space_around_the_output_is_dropped() {
    let outcome = decode_run(&run(true, "\u{a0}\u{3000}\r\n[\"a.png\"]\u{2028}\u{b}\u{c}", ""));
    assert_eq!(artifact_path(outcome), "a.png");
}

#[test]
fn no_printed_path_is_a_failure_of_the_image() {
    let outcome = decode_run(&run(true, "[]", "Error: model not loaded\n"));
    assert_eq!(failure_message(outcome), "Error: model not loaded\n");
}

#[test]
fn unreadable_output_is_a_failure_of_the_image() {
    let outcome = decode_run(&run(true, "not json\n", "ignored"));
    assert_eq!(
        failure_message(outcome),
        "Failed to parse output: expected ident at line 1 column 2 - not json\n"
    );
    let outcome = decode_run(&run(true, "", ""));
    assert_eq!(
        failure_message(outcome),
        "Failed to parse output: EOF while parsing a value at line 1 column 0 - "
    );
}

#[test]
fn output_of_another_shape_is_unreadable() {
    let outcome = decode_run(&run(true, "{\"path\": \"a.png\"}", ""));
    assert!(failure_message(outcome).starts_with("Failed to parse output: invalid type: map"));
    let outcome = decode_run(&run(true, "[1, 2]", ""));
    assert!(failure_message(outcome).starts_with("Failed to parse output: invalid type: integer"));
    let outcome = decode_run(&run(true, "[\"a.png\"] trailing", ""));
    assert!(failure_message(outcome).starts_with("Failed to parse output: trailing characters"));
    assert!(failure_message(decode_run(&run(true, "[\"a.png\"] trailing", "")))
        .ends_with(" - [\"a.png\"] trailing"));
}

#[test]
fn reply_is_interpreted_by_its_kind() {
    let left = run(true, "raw output", "raw errors");
    let outcome = interpret_reply(Ok(vec!["p.png".to_string(), "q.png".to_string()]), &left);
    assert_eq!(artifact_path(outcome), "p.png");
    let outcome = interpret_reply(Ok(Vec::new()), &left);
    assert_eq!(failure_message(outcome), "raw errors");
    let outcome = interpret_reply(Err("bad token".to_string()), &left);
    assert_eq!(failure_message(outcome), "Failed to parse output: bad token - raw output");
}

#[test]
fn trim_drops_white_space_at_both_ends_only() {
    assert_eq!(trim("  a b  "), "a b");
    assert_eq!(trim("\t\n a\u{a0}b \r\n"), "a\u{a0}b");
    assert_eq!(trim(""), "");
    assert_eq!(trim(" \n\t "), "");
    assert_eq!(trim("x"), "x");
    assert_eq!(trim("\u{200b}x\u{200b}"), "\u{200b}x\u{200b}");
}

#[test]
fn trim_agrees_with_std() {
    let samples = [
        "", " ", "a", " a", "a ", " a b ", "\u{85}a\u{85}", "\u{1680}\u{2000}\u{200a}x\u{2029}",
        "\u{202f}\u{205f}\u{3000}", "\u{1c}a\u{1f}", "\u{feff}a", "\u{180e}a", "\u{2007}a\u{2008}",
        "\u{b}\u{c}[\"x\"]\u{d}\u{a}\u{9}",
    ];
    for s in samples.iter() {
        assert_eq!(trim(s), s.trim(), "{:?}", s);
    }
}

#[test]
fn white_space_is_what_std_counts_as_such() {
    let mut code: u32 = 0;
    while code <= 0x3100 {
        if let Some(c) = char::from_u32(code) {
            assert_eq!(whitespace(c), c.is_whitespace(), "{:x}", code);
        }
        code += 1;
    }
    for c in ['\u{feff}', '\u{e000}', '\u{10ffff}', '\u{1f600}'] {
        assert_eq!(whitespace(c), c.is_whitespace());
    }
}
