use shell::builder::get_command;
use shell::dispatch::{
    build_script, handle_single_arg_built_in, plan_command, LeafAction, LineAction,
};
use shell::Command;

fn owned(words: Vec<&str>) -> Vec<String> {
    words.iter().map(|w| String::from(*w)).collect()
}

#[test]
fn builtin_keywords_recognized() {
    assert_eq!(handle_single_arg_built_in("quit"), LineAction::Quit);
    assert_eq!(handle_single_arg_built_in("prev"), LineAction::RunPrev);
    assert_eq!(handle_single_arg_built_in("help"), LineAction::ShowHelp);
    assert_eq!(handle_single_arg_built_in("ls -l"), LineAction::Dispatch);
}

#[test]
fn builtin_keywords_case_insensitive() {
    assert_eq!(handle_single_arg_built_in("QUIT"), LineAction::Quit);
    assert_eq!(handle_single_arg_built_in("Prev"), LineAction::RunPrev);
    assert_eq!(handle_single_arg_built_in("hElP"), LineAction::ShowHelp);
}

#[test]
fn prev_with_nothing_remembered_is_noop() {
    // The loop starts with `Empty` remembered; replaying it plans no work,
    // so `prev` before any command neither errors nor runs anything.
    assert_eq!(handle_single_arg_built_in("prev"), LineAction::RunPrev);
    let plan = plan_command(Command::Empty);
    assert_eq!(plan.action, LeafAction::DoNothing);
    assert_eq!(plan.stdin_path, None);
    assert_eq!(plan.stdout_path, None);
}

#[test]
fn plan_of_external_command() {
    let command = get_command("ls -l dir").unwrap().remove(0);
    let plan = plan_command(command);
    assert_eq!(plan.action, LeafAction::Spawn(owned(vec!["ls", "-l", "dir"])));
    assert_eq!(plan.stdin_path, None);
    assert_eq!(plan.stdout_path, None);
}

#[test]
fn plan_of_redirected_command() {
    let command = get_command("exe < in > out").unwrap().remove(0);
    let plan = plan_command(command);
    assert_eq!(plan.action, LeafAction::Spawn(owned(vec!["exe"])));
    assert_eq!(plan.stdin_path, Some(String::from("in")));
    assert_eq!(plan.stdout_path, Some(String::from("out")));
}

#[test]
fn plan_resolves_builtins_before_fork() {
    let cd = get_command("cd somewhere").unwrap().remove(0);
    assert_eq!(plan_command(cd).action, LeafAction::ChangeDir(owned(vec!["cd", "somewhere"])));

    let source = get_command("source file.txt").unwrap().remove(0);
    assert_eq!(
        plan_command(source).action,
        LeafAction::RunSource(owned(vec!["source", "file.txt"]))
    );
}

#[test]
fn innermost_redirect_wins() {
    // Nested input redirects behave like nested forked rebindings: the
    // innermost file is the one standard input ends bound to.
    let inner = Command::InputRedirect(
        String::from("inner"),
        Box::new(Command::Tokens(Box::new(owned(vec!["exe"])))),
    );
    let outer = Command::InputRedirect(String::from("outer"), Box::new(inner));
    let plan = plan_command(outer);
    assert_eq!(plan.stdin_path, Some(String::from("inner")));
}

#[test]
fn source_two_lines_in_order() {
    // Both lines of a sourced file are built, in file order, even when the
    // first names a program that will fail to run.
    let lines = owned(vec!["no_such_program_anywhere x", "second y"]);
    let built = build_script(&lines);
    assert!(built.error.is_none());
    assert_eq!(built.commands.len(), 2);
    assert_eq!(built.commands[0], Command::Tokens(Box::new(owned(vec![
        "no_such_program_anywhere",
        "x"
    ]))));
    assert_eq!(built.commands[1], Command::Tokens(Box::new(owned(vec!["second", "y"]))));
}

#[test]
fn source_stops_at_malformed_line() {
    let lines = owned(vec!["good one", r#"bad "unterminated"#, "never built"]);
    let built = build_script(&lines);
    assert_eq!(built.error, Some(shell::ShellError::MalformedInput));
    assert_eq!(built.commands.len(), 1);
    assert_eq!(built.commands[0], Command::Tokens(Box::new(owned(vec!["good", "one"]))));
}

#[test]
fn duplicate_is_deep_equal() {
    let command = get_command("exe < in > out ; ignored").unwrap().remove(0);
    let copy = command.duplicate();
    assert_eq!(copy, command);
}
