use pyros_app::placeholder::{find_placeholders, find_token_end, find_tokens, is_placeholder, name_char};

fn found(template: &str) -> Vec<String> {
    find_placeholders(template)
}

#[test]
fn finds_each_occurrence_in_order() {
    assert_eq!(
        found("a __color__ cat, __color__ again"),
        vec!["__color__".to_string(), "__color__".to_string()]
    );
    assert_eq!(
        found("__a__ and __b__"),
        vec!["__a__".to_string(), "__b__".to_string()]
    );
}

#[test]
fn plain_text_has_no_placeholder() {
    assert!(found("").is_empty());
    assert!(found("a cat on a mat").is_empty());
    assert!(found("snake_case and _x_ and __").is_empty());
}

#[test]
fn placeholder_needs_a_name() {
    assert!(found("____").is_empty());
    assert!(found("__ __").is_empty());
    assert_eq!(found("_____"), vec!["_____".to_string()]);
    assert_eq!(found("______"), vec!["______".to_string()]);
}

#[test]
fn placeholder_needs_both_delimiters() {
    assert!(found("__open").is_empty());
    assert!(found("close__").is_empty());
    assert!(found("__a_").is_empty());
    assert!(found("_a__").is_empty());
}

#[test]
fn longest_placeholder_wins() {
    assert_eq!(found("x__a__b__ y"), vec!["__a__b__".to_string()]);
    assert_eq!(found("__a____b__"), vec!["__a____b__".to_string()]);
    assert_eq!(found("___a__"), vec!["___a__".to_string()]);
    assert_eq!(found("__a___"), vec!["__a___".to_string()]);
    assert_eq!(found("__a__b"), vec!["__a__".to_string()]);
}

#[test]
fn name_may_hold_digits_hyphen_and_slash() {
    assert_eq!(found("see __scene/sky-1__."), vec!["__scene/sky-1__".to_string()]);
    assert_eq!(found("__A9__"), vec!["__A9__".to_string()]);
    assert_eq!(found("__-__ __/__"), vec!["__-__".to_string(), "__/__".to_string()]);
}

#[test]
fn name_holds_no_other_character() {
    assert!(found("__a b__").is_empty());
    assert!(found("__a.b__").is_empty());
    assert!(found("__caf\u{e9}__").is_empty());
    assert_eq!(found("__a b__c__"), vec!["__c__".to_string()]);
}

#[test]
fn scan_goes_on_behind_a_placeholder() {
    assert_eq!(found("__a__b__c"), vec!["__a__b__".to_string()]);
    assert_eq!(found("__a__,__b__"), vec!["__a__".to_string(), "__b__".to_string()]);
    assert_eq!(found("\u{e9}__a__\u{e9}__b__"), vec!["__a__".to_string(), "__b__".to_string()]);
}

#[test]
fn spans_count_characters() {
    let text: Vec<char> = "\u{e9}\u{e9} __a__ z".chars().collect();
    let spans = find_tokens(&text);
    assert_eq!(spans.len(), 1);
    assert_eq!(spans[0].start, 3);
    assert_eq!(spans[0].end, 8);
    assert_eq!(find_token_end(&text, 3), Some(8));
    assert_eq!(find_token_end(&text, 0), None);
    assert_eq!(find_token_end(&text, 4), None);
    assert_eq!(find_token_end(&text, text.len()), None);
}

#[test]
fn is_placeholder_takes_the_whole_name() {
    assert!(is_placeholder("__color__"));
    assert!(is_placeholder("__a__b__"));
    assert!(is_placeholder("_____"));
    assert!(!is_placeholder("color"));
    assert!(!is_placeholder("__color__ "));
    assert!(!is_placeholder(" __color__"));
    assert!(!is_placeholder("__a__b"));
    assert!(!is_placeholder("____"));
    assert!(!is_placeholder(""));
}

#[test]
fn name_characters() {
    for c in ['a', 'z', 'A', 'Z', '0', '9', '_', '-', '/'] {
        assert!(name_char(c));
    }
    for c in [' ', '.', '\\', '`', '{', '@', '[', ':', '\u{e9}', '\n'] {
        assert!(!name_char(c));
    }
}
