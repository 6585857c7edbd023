use pipeshell::parser::parse;
use pipeshell::parser::ParseError;

#[test]
fn single_command_args_in_order() {
    let p = parse("cmd a b c").unwrap();
    assert_eq!(p.cmds.len(), 1);
    assert_eq!(p.cmds[0].args, ["cmd", "a", "b", "c"]);
}

#[test]
fn quoted_argument_round_trip() {
    let p = parse("'hello world'").unwrap();
    assert_eq!(p.cmds.len(), 1);
    assert_eq!(p.cmds[0].args, ["hello world"]);
}

#[test]
fn pipe_splitting_three_commands() {
    let p = parse("a | b | c").unwrap();
    assert_eq!(p.cmds.len(), 3);
    assert_eq!(p.cmds[0].args, ["a"]);
    assert_eq!(p.cmds[1].args, ["b"]);
    assert_eq!(p.cmds[2].args, ["c"]);
}

#[test]
fn pipe_without_spaces_parses_identically() {
    assert_eq!(parse("a|b").unwrap(), parse("a | b").unwrap());
}

#[test]
fn reparsing_yields_equal_pipelines() {
    let first = parse("echo hi | cat").unwrap();
    let second = parse("echo hi | cat").unwrap();
    assert_eq!(first, second);
}

#[test]
fn empty_line_rejected() {
    assert_eq!(parse(""), Err(ParseError::ExpectedArgument));
}

#[test]
fn lone_pipe_rejected() {
    assert_eq!(parse("|"), Err(ParseError::ExpectedArgument));
}

#[test]
fn trailing_pipe_rejected() {
    assert_eq!(parse("a |"), Err(ParseError::ExpectedArgument));
}

#[test]
fn double_pipe_rejected() {
    assert_eq!(parse("a || b"), Err(ParseError::ExpectedArgument));
}

#[test]
fn unterminated_quote_rejected() {
    assert_eq!(parse("'unterminated"), Err(ParseError::UnterminatedQuote));
}

#[test]
fn quote_abutting_following_text_rejected() {
    assert_eq!(parse("'a'b"), Err(ParseError::MissingSeparator));
}

#[test]
fn quote_abutting_preceding_text_rejected() {
    assert_eq!(parse("a'b'"), Err(ParseError::MissingSeparator));
}

#[test]
fn leading_whitespace_rejected() {
    assert_eq!(parse(" a"), Err(ParseError::ExpectedArgument));
}

#[test]
fn trailing_whitespace_consumed() {
    let p = parse("a ").unwrap();
    assert_eq!(p.cmds.len(), 1);
    assert_eq!(p.cmds[0].args, ["a"]);
}

#[test]
fn empty_quotes_give_empty_argument() {
    let p = parse("''").unwrap();
    assert_eq!(p.cmds.len(), 1);
    assert_eq!(p.cmds[0].args, [""]);
}

#[test]
fn quoted_pipe_is_literal() {
    let p = parse("echo 'a|b'").unwrap();
    assert_eq!(p.cmds.len(), 1);
    assert_eq!(p.cmds[0].args, ["echo", "a|b"]);
}

#[test]
fn quoted_and_unquoted_arguments_mix() {
    let p = parse("grep 'foo bar' | wc -l").unwrap();
    assert_eq!(p.cmds.len(), 2);
    assert_eq!(p.cmds[0].args, ["grep", "foo bar"]);
    assert_eq!(p.cmds[1].args, ["wc", "-l"]);
}

#[test]
fn tab_separates_arguments() {
    let p = parse("a\tb").unwrap();
    assert_eq!(p.cmds.len(), 1);
    assert_eq!(p.cmds[0].args, ["a", "b"]);
}

#[test]
fn multiple_spaces_separate_arguments_once() {
    let p = parse("a   b").unwrap();
    assert_eq!(p.cmds.len(), 1);
    assert_eq!(p.cmds[0].args, ["a", "b"]);
}

#[test]
fn echo_hi_cat_pipeline_structure() {
    let p = parse("echo hi | cat").unwrap();
    assert_eq!(p.cmds.len(), 2);
    assert_eq!(p.cmds[0].args, ["echo", "hi"]);
    assert_eq!(p.cmds[1].args, ["cat"]);
}

#[test]
fn nonexistent_command_still_parses() {
    let p = parse("nonexistent-cmd-xyz").unwrap();
    assert_eq!(p.cmds.len(), 1);
    assert_eq!(p.cmds[0].args, ["nonexistent-cmd-xyz"]);
}

#[test]
fn unicode_whitespace_separates_arguments() {
    let p = parse("a\u{3000}b").unwrap();
    assert_eq!(p.cmds.len(), 1);
    assert_eq!(p.cmds[0].args, ["a", "b"]);
}

#[test]
fn quoted_whitespace_kept_literally() {
    let p = parse("printf 'one\ttwo three'").unwrap();
    assert_eq!(p.cmds.len(), 1);
    assert_eq!(p.cmds[0].args, ["printf", "one\ttwo three"]);
}
