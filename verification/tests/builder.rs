use shell::builder::{get_command, sequence, split_on_input, split_on_redirection};
use shell::{Command, ShellError};

fn into_owned_string_vec(str_vec: Vec<&str>) -> Vec<String> {
    str_vec.iter().map(|s| String::from(*s)).collect()
}

#[test]
fn redirect_test1() {
    let input = "exe input > outputfile";

    let token_command = Command::Tokens(Box::new(into_owned_string_vec(vec!["exe", "input"])));
    let expected_command =
        Command::OutputRedirect(String::from("outputfile"), Box::new(token_command));

    let actual_command = get_command(input).unwrap();

    assert_eq!(expected_command, actual_command[0]);
}

#[test]
fn redirect_test2() {
    let input = "exe < inputfile > outputfile";

    let token_command = Command::Tokens(Box::new(into_owned_string_vec(vec!["exe"])));
    let expected_command = Command::OutputRedirect(
        String::from("outputfile"),
        Box::new(Command::InputRedirect(String::from("inputfile"), Box::new(token_command))),
    );

    let actual_command = get_command(input).unwrap();
    assert_eq!(expected_command, actual_command[0]);
}

#[test]
fn redirect_test3() {
    let input = "exe > outputfile < inputfile ";

    let token_command = Command::Tokens(Box::new(into_owned_string_vec(vec!["exe"])));
    let expected_command = Command::OutputRedirect(
        String::from("outputfile"),
        Box::new(Command::InputRedirect(String::from("inputfile"), Box::new(token_command))),
    );

    let actual_command = get_command(input).unwrap();
    assert_eq!(expected_command, actual_command[0]);
}

#[test]
fn redirection_order_insensitive() {
    // The operators' order in the text does not change the nesting: output
    // redirection is always the outermost node.
    let a = get_command("exe < in > out").unwrap();
    let b = get_command("exe > out < in").unwrap();
    assert_eq!(a, b);
}

#[test]
fn sequencing_independent_segments() {
    // Building "a ; b" yields the segments of "a" and "b", built separately.
    let joined = get_command("a ; b").unwrap();
    let first = get_command("a").unwrap();
    let second = get_command("b").unwrap();
    assert_eq!(joined.len(), 2);
    assert_eq!(joined[0], first[0]);
    assert_eq!(joined[1], second[0]);
}

#[test]
fn empty_line_builds_empty_command() {
    let commands = get_command("").unwrap();
    assert_eq!(commands, vec![Command::Empty]);
}

#[test]
fn lone_semicolon_builds_nothing() {
    let commands = get_command(";").unwrap();
    assert_eq!(commands, Vec::<Command>::new());
}

#[test]
fn missing_command_before_redirect_rejected() {
    assert_eq!(get_command("> out").unwrap_err(), ShellError::RedirectionError);
    assert_eq!(get_command("< in").unwrap_err(), ShellError::RedirectionError);
}

#[test]
fn missing_filename_after_redirect_rejected() {
    assert_eq!(get_command("exe >").unwrap_err(), ShellError::RedirectionError);
    assert_eq!(get_command("exe <").unwrap_err(), ShellError::RedirectionError);
}

#[test]
fn repeated_redirect_rejected() {
    assert_eq!(get_command("exe > a > b").unwrap_err(), ShellError::RedirectionError);
    assert_eq!(get_command("exe < a < b").unwrap_err(), ShellError::RedirectionError);
}

#[test]
fn malformed_line_rejected_by_get_command() {
    let line = r#"exe "unterminated"#;
    assert_eq!(get_command(line).unwrap_err(), ShellError::MalformedInput);
}

#[test]
fn words_after_destination_are_arguments() {
    // "exe > out more" sends output to "out" and keeps "more" as an argument.
    let commands = get_command("exe > out more").unwrap();
    let expected = Command::OutputRedirect(
        String::from("out"),
        Box::new(Command::Tokens(Box::new(into_owned_string_vec(vec!["exe", "more"])))),
    );
    assert_eq!(commands[0], expected);
}

#[test]
fn sequence_of_empty_tokens_is_empty_command() {
    let commands = sequence(Vec::new()).unwrap();
    assert_eq!(commands, vec![Command::Empty]);
}

#[test]
fn split_on_input_without_operator_is_leaf() {
    let words = into_owned_string_vec(vec!["exe", "arg"]);
    let command = split_on_input(words.clone()).unwrap();
    assert_eq!(command, Command::Tokens(Box::new(words)));
}

#[test]
fn split_on_redirection_builds_nested_redirects() {
    let words = into_owned_string_vec(vec!["exe", "<", "in", ">", "out"]);
    let command = split_on_redirection(words).unwrap();
    let expected = Command::OutputRedirect(
        String::from("out"),
        Box::new(Command::InputRedirect(
            String::from("in"),
            Box::new(Command::Tokens(Box::new(into_owned_string_vec(vec!["exe"])))),
        )),
    );
    assert_eq!(command, expected);
}
