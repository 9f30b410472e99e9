use covers::directive::{parse, DirectiveError};

#[test]
fn missing_reference_on_empty_text() {
    assert_eq!(parse("").unwrap_err(), DirectiveError::MissingReference);
}

#[test]
fn missing_reference_on_blank_text() {
    assert_eq!(parse("   ").unwrap_err(), DirectiveError::MissingReference);
}

#[test]
fn malformed_option_without_equals() {
    assert_eq!(parse("foo, scope").unwrap_err(), DirectiveError::MalformedOption);
}

#[test]
fn malformed_option_with_two_equals() {
    assert_eq!(parse("foo, a=b=c").unwrap_err(), DirectiveError::MalformedOption);
}

#[test]
fn malformed_option_with_empty_value() {
    assert_eq!(parse("foo, scope =").unwrap_err(), DirectiveError::MalformedOption);
}

#[test]
fn malformed_option_with_empty_key() {
    assert_eq!(parse("foo, = impl").unwrap_err(), DirectiveError::MalformedOption);
}

#[test]
fn parses_reference_and_scope_option() {
    let d = parse("foo, scope = impl").unwrap();
    assert_eq!(d.reference, "foo");
    assert_eq!(d.options.len(), 1);
    assert_eq!(d.options[0].0, "scope");
    assert_eq!(d.options[0].1, "impl");
    assert!(d.scope_is_impl());
}

#[test]
fn reference_alone_parses_with_no_options() {
    let d = parse("lyrics_mocks::mockall_moctopus_too_bold").unwrap();
    assert_eq!(d.reference, "lyrics_mocks::mockall_moctopus_too_bold");
    assert!(d.options.is_empty());
    assert!(!d.scope_is_impl());
}

#[test]
fn reference_keeps_its_case_and_is_trimmed() {
    let d = parse("  Module::MockFn  , scope = impl").unwrap();
    assert_eq!(d.reference, "Module::MockFn");
}

#[test]
fn option_keys_and_values_are_lowercased() {
    let d = parse("foo, SCOPE = IMPL").unwrap();
    assert_eq!(d.options[0].0, "scope");
    assert_eq!(d.options[0].1, "impl");
    assert!(d.scope_is_impl());
}

#[test]
fn last_occurrence_of_a_repeated_key_wins() {
    let d = parse("foo, scope = impl, scope = off").unwrap();
    assert_eq!(d.option_value("scope").unwrap(), "off");
    assert!(!d.scope_is_impl());
}

#[test]
fn unknown_option_is_kept_but_not_scope() {
    let d = parse("foo, color = Red").unwrap();
    assert_eq!(d.option_value("color").unwrap(), "red");
    assert!(d.option_value("scope").is_none());
    assert!(!d.scope_is_impl());
}
