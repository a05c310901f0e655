use shell::tokens::{add_token, get_tokens, read_string, tokenize};

fn owned(words: Vec<&str>) -> Vec<String> {
    words.iter().map(|w| String::from(*w)).collect()
}

// Tests of the by-value tokenizer entry point.

#[test]
fn shell_test_with_1_token() {
    let slice = "example_input";
    let input: String = String::from(slice);
    let result = vec![String::from(slice)];
    assert_eq!(get_tokens(input).unwrap(), result);
}

#[test]
fn shell_test_with_2_tokens() {
    let slice = "input1 input2";
    let input: String = String::from(slice);
    let result = vec![String::from("input1"), String::from("input2")];
    assert_eq!(get_tokens(input).unwrap(), result);
}

#[test]
fn shell_test_with_2_tokens_and_end_space() {
    let slice = "input1 input2 ";
    let input: String = String::from(slice);
    let result = vec![String::from("input1"), String::from("input2")];
    assert_eq!(get_tokens(input).unwrap(), result);
}

#[test]
fn shell_test_with_special_character_tokens() {
    let slice = "input1 < input2";
    let input: String = String::from(slice);
    let result = vec![String::from("input1"), String::from("<"), String::from("input2")];
    assert_eq!(get_tokens(input).unwrap(), result);
}

#[test]
fn shell_test_with_quotation_tokens() {
    let slice = r#"input1 "filename" input2 "#;
    let input: String = String::from(slice);
    let result = vec![String::from("input1"), String::from("filename"), String::from("input2")];
    assert_eq!(get_tokens(input).unwrap(), result);
}

#[test]
fn shell_test_with_quotation_tokens2() {
    let slice = r#"input1 "file < ... name" input2 "#;
    let input: String = String::from(slice);
    let result = vec![
        String::from("input1"),
        String::from("file < ... name"),
        String::from("input2"),
    ];
    assert_eq!(get_tokens(input).unwrap(), result);
}

#[test]
fn shell_read_string_test() {
    let slice = r#"input1 "file < name" input2 "#;
    let input: String = String::from(slice);
    let index: usize = 8;
    let mut buf: Vec<char> = Vec::new();

    let expected_buf: Vec<char> = vec!['f', 'i', 'l', 'e', ' ', '<', ' ', 'n', 'a', 'm', 'e'];
    let expected_length = 11;

    assert_eq!(read_string(index, input.as_str(), &mut buf), expected_length);
    assert_eq!(buf, expected_buf);
}

#[test]
fn shell_test_with_special_character_tokens2() {
    let slice = "input1< >>input2";
    let input: String = String::from(slice);
    let result = vec![
        String::from("input1"),
        String::from("<"),
        String::from(">"),
        String::from(">"),
        String::from("input2"),
    ];
    assert_eq!(get_tokens(input).unwrap(), result);
}

#[test]
fn shell_add_token_test() {
    let mut tokens: Vec<String> = vec![String::from("tokenAlreadyHere")];
    let buf: Vec<char> = vec!['e', 'x', 'a', 'm', 'p', 'l', 'e'];
    let expected_tokens = vec![String::from("tokenAlreadyHere"), String::from("example")];

    add_token(&mut tokens, buf);
    assert_eq!(tokens, expected_tokens);
}

// The same scenarios through the borrowing entry point.

#[test]
fn tokens_test_with_1_token() {
    let slice = "example_input";
    let result = vec![String::from(slice)];
    assert_eq!(tokenize(slice).unwrap(), result);
}

#[test]
fn tokens_test_with_2_tokens() {
    let slice = "input1 input2";
    let result = vec![String::from("input1"), String::from("input2")];
    assert_eq!(tokenize(slice).unwrap(), result);
}

#[test]
fn tokens_test_with_2_tokens_and_end_space() {
    let slice = "input1 input2 ";
    let result = vec![String::from("input1"), String::from("input2")];
    assert_eq!(tokenize(slice).unwrap(), result);
}

#[test]
fn tokens_test_with_special_character_tokens() {
    let slice = "input1 < input2";
    let result = vec![String::from("input1"), String::from("<"), String::from("input2")];
    assert_eq!(tokenize(slice).unwrap(), result);
}

#[test]
fn tokens_test_with_quotation_tokens() {
    let slice = r#"input1 "filename" input2 "#;
    let result = vec![String::from("input1"), String::from("filename"), String::from("input2")];
    assert_eq!(tokenize(slice).unwrap(), result);
}

#[test]
fn tokens_test_with_quotation_tokens2() {
    let slice = r#"input1 "file < ... name" input2 "#;
    let result = vec![
        String::from("input1"),
        String::from("file < ... name"),
        String::from("input2"),
    ];
    assert_eq!(tokenize(slice).unwrap(), result);
}

#[test]
fn tokens_read_string_test() {
    let slice = r#"input1 "file < name" input2 "#;
    let input: String = String::from(slice);
    let index: usize = 8;
    let mut buf: Vec<char> = Vec::new();

    let expected_buf: Vec<char> = vec!['f', 'i', 'l', 'e', ' ', '<', ' ', 'n', 'a', 'm', 'e'];
    let expected_length = 11;

    assert_eq!(read_string(index, input.as_str(), &mut buf), expected_length);
    assert_eq!(buf, expected_buf);
}

#[test]
fn tokens_test_with_special_character_tokens2() {
    let slice = "input1< >>input2";
    let result = vec![
        String::from("input1"),
        String::from("<"),
        String::from(">"),
        String::from(">"),
        String::from("input2"),
    ];
    assert_eq!(tokenize(slice).unwrap(), result);
}

#[test]
fn tokens_add_token_test() {
    let mut tokens: Vec<String> = vec![String::from("tokenAlreadyHere")];
    let buf: Vec<char> = vec!['e', 'x', 'a', 'm', 'p', 'l', 'e'];
    let expected_tokens = vec![String::from("tokenAlreadyHere"), String::from("example")];

    add_token(&mut tokens, buf);
    assert_eq!(tokens, expected_tokens);
}

// Further scenarios the design promises.

#[test]
fn round_trip_of_plain_words() {
    assert_eq!(tokenize("input1 input2").unwrap(), owned(vec!["input1", "input2"]));
    assert_eq!(tokenize("a b c").unwrap(), owned(vec!["a", "b", "c"]));
}

#[test]
fn quote_preserves_interior_operators() {
    let line = r#"input1 "file < name" input2"#;
    assert_eq!(tokenize(line).unwrap(), owned(vec!["input1", "file < name", "input2"]));
}

#[test]
fn trailing_whitespace_insignificant() {
    assert_eq!(tokenize("input1 input2 ").unwrap(), tokenize("input1 input2").unwrap());
    assert_eq!(tokenize("input1 input2\t\n").unwrap(), tokenize("input1 input2").unwrap());
}

#[test]
fn unterminated_quote_fails() {
    let line = r#"exe "unterminated"#;
    assert_eq!(tokenize(line).unwrap_err(), shell::ShellError::MalformedInput);
}

#[test]
fn empty_quoted_span_fails() {
    let line = r#"exe "" after"#;
    assert_eq!(tokenize(line).unwrap_err(), shell::ShellError::MalformedInput);
}

#[test]
fn empty_line_has_no_tokens() {
    assert_eq!(tokenize("").unwrap(), Vec::<String>::new());
    assert_eq!(tokenize("   ").unwrap(), Vec::<String>::new());
}
