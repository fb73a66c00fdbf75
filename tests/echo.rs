use textutils::echo::echo;

#[test]
fn echo_joins_with_single_spaces() {
    let tokens = vec!["Hello".to_string(), "there".to_string()];
    assert_eq!(echo(&tokens, false), "Hello there\n");
}

#[test]
fn echo_omit_newline_drops_only_newline() {
    let tokens = vec!["Hello".to_string(), " spaced ".to_string(), "x".to_string()];
    assert_eq!(echo(&tokens, true), "Hello  spaced  x");
    assert_eq!(echo(&tokens, false), "Hello  spaced  x\n");
}

#[test]
fn echo_single_and_empty() {
    assert_eq!(echo(&vec!["one".to_string()], false), "one\n");
    assert_eq!(echo(&vec![], false), "\n");
    assert_eq!(echo(&vec![], true), "");
}
