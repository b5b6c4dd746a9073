use rebar_section::preprocess::preprocess;

#[test]
fn test_preprocess() {
    let input = r#"
beam "V-1":
    30 x 60
    top 2 #6
"#;
    let expected = "beam \"V-1\": {\n30 x 60\ntop 2 #6\n}\n";
    assert_eq!(preprocess(input), expected);
}

#[test]
fn preprocess_leaves_plain_text_unchanged() {
    let input = "30 x 60\ncover 4\ntop 2 #6\n";
    assert_eq!(preprocess(input), input);
}

#[test]
fn preprocess_without_headers_only_trims() {
    let input = "   30 x 60  \n\n// a note\n# another\n\tcover 4";
    assert_eq!(preprocess(input), "30 x 60\ncover 4\n");
}

#[test]
fn preprocess_closes_each_block_before_the_next() {
    let input = "beam \"A\":\n  30 x 60\ncolumn \"B\":\n  40 x 40\n";
    let expected = "beam \"A\": {\n30 x 60\n}\ncolumn \"B\": {\n40 x 40\n}\n";
    assert_eq!(preprocess(input), expected);
}

#[test]
fn preprocess_of_empty_text_is_empty() {
    assert_eq!(preprocess(""), "");
    assert_eq!(preprocess("\n  \n// only a comment\n"), "");
}

#[test]
fn preprocess_handles_carriage_returns() {
    assert_eq!(preprocess("wall \"W\":\r\n  cover 3\r\n"), "wall \"W\": {\ncover 3\n}\n");
}
