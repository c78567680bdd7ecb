use turtle_logo::ast::{Command, Expression};
use turtle_logo::errors::LogoError;
use turtle_logo::parser::parse_commands;

fn parse_ok(src: &str) -> Vec<Command> {
    parse_commands(src).expect("script should parse")
}

fn parse_err(src: &str) -> LogoError {
    parse_commands(src).expect_err("script should be rejected")
}

#[test]
fn parsing_is_deterministic() {
    let src = "PENDOWN\nMAKE \"X \"5\nIF EQ :X \"5 [\nFORWARD + \"10 \"20\n]\nTO STEP \"n\nFORWARD :n\nEND\nSTEP \"3\n";
    let a = parse_ok(src);
    let b = parse_ok(src);
    assert_eq!(a, b);
}

#[test]
fn simple_commands_parse() {
    let cmds = parse_ok("PENUP\nPENDOWN\nFORWARD \"10\nBACK \"3\nLEFT \"1\nRIGHT \"2");
    assert_eq!(cmds.len(), 6);
    assert_eq!(cmds[0], Command::PenUp);
    assert_eq!(cmds[1], Command::PenDown);
    assert_eq!(
        cmds[2],
        Command::Forward(Expression::Value("\"10".to_string()))
    );
}

#[test]
fn keywords_are_case_insensitive() {
    let a = parse_ok("forward \"10\nPenDown");
    let b = parse_ok("FORWARD \"10\nPENDOWN");
    assert_eq!(a, b);
}

#[test]
fn prefix_expression_parses_nested() {
    let cmds = parse_ok("FORWARD + \"1 * \"2 \"3");
    let expected = Command::Forward(Expression::Add(
        Box::new(Expression::Value("\"1".to_string())),
        Box::new(Expression::Multiply(
            Box::new(Expression::Value("\"2".to_string())),
            Box::new(Expression::Value("\"3".to_string())),
        )),
    ));
    assert_eq!(cmds, vec![expected]);
}

#[test]
fn comments_and_blank_lines_are_skipped() {
    let cmds = parse_ok("// a comment\n\n   \nPENUP\n//another IF [\n");
    assert_eq!(cmds, vec![Command::PenUp]);
}

#[test]
fn if_block_collects_body() {
    let cmds = parse_ok("IF EQ \"1 \"1 [\nPENDOWN\n]");
    match &cmds[0] {
        Command::If(_, body) => assert_eq!(body, &vec![Command::PenDown]),
        other => panic!("expected an IF command, got {:?}", other),
    }
}

#[test]
fn while_block_collects_body() {
    let cmds = parse_ok("WHILE EQ \"1 \"1 [\nFORWARD \"1\n]");
    match &cmds[0] {
        Command::While(cond, body) => {
            assert_eq!(
                cond,
                &Expression::Eq(
                    Box::new(Expression::Value("\"1".to_string())),
                    Box::new(Expression::Value("\"1".to_string())),
                )
            );
            assert_eq!(body.len(), 1);
        },
        other => panic!("expected a WHILE command, got {:?}", other),
    }
}

#[test]
fn procedure_definition_parses() {
    let cmds = parse_ok("TO STEP \"n\nFORWARD :n\nEND\nSTEP \"3");
    match &cmds[0] {
        Command::To(name, params, body) => {
            assert_eq!(name, "STEP");
            assert_eq!(params, &vec![Expression::Value("\"n".to_string())]);
            assert_eq!(body.len(), 1);
        },
        other => panic!("expected a TO command, got {:?}", other),
    }
    match &cmds[1] {
        Command::Procedure(name, args) => {
            assert_eq!(name, "STEP");
            assert_eq!(args.len(), 1);
        },
        other => panic!("expected a procedure call, got {:?}", other),
    }
}

#[test]
fn unclosed_brace_is_fatal() {
    assert_eq!(parse_err("IF EQ \"1 \"1 [\nPENUP"), LogoError::UnclosedBrace);
}

#[test]
fn stray_closing_bracket_is_fatal() {
    assert_eq!(parse_err("]"), LogoError::UnmatchedBracket);
}

#[test]
fn stray_end_is_fatal() {
    assert_eq!(parse_err("END"), LogoError::UnmatchedEnd);
}

#[test]
fn unclosed_procedure_is_fatal() {
    assert_eq!(parse_err("TO STEP\nPENUP"), LogoError::UnclosedProcedure);
}

#[test]
fn too_many_arguments_is_fatal() {
    assert_eq!(
        parse_err("FORWARD \"1 \"2"),
        LogoError::ArityMismatch { command: "FORWARD".to_string(), received: 2, expected: 1 }
    );
}

#[test]
fn arguments_after_zero_arity_command_are_fatal() {
    assert_eq!(
        parse_err("PENUP \"1"),
        LogoError::ArityMismatch { command: "PENUP".to_string(), received: 1, expected: 0 }
    );
}

#[test]
fn missing_arguments_are_fatal() {
    assert_eq!(
        parse_err("MAKE \"X"),
        LogoError::ArityMismatch { command: "MAKE".to_string(), received: 1, expected: 2 }
    );
}

#[test]
fn invalid_expression_token_is_fatal() {
    assert_eq!(
        parse_err("FORWARD banana"),
        LogoError::InvalidValue { token: "banana".to_string() }
    );
}

#[test]
fn if_without_brace_is_fatal() {
    assert_eq!(parse_err("IF \"1 \"2"), LogoError::MissingStartingBrace);
}

#[test]
fn if_with_malformed_condition_is_fatal() {
    assert_eq!(
        parse_err("IF EQ \"1 \"1 \"2 [\n]"),
        LogoError::IncorrectBlockCondition { command: "IF".to_string() }
    );
}

#[test]
fn while_without_brace_is_fatal() {
    assert_eq!(parse_err("WHILE \"1 \"2"), LogoError::MissingStartingBrace);
}

#[test]
fn procedure_named_like_a_value_is_fatal() {
    assert_eq!(
        parse_err("TO \"X\nEND"),
        LogoError::InvalidProcedureName { name: "\"X".to_string() }
    );
    assert_eq!(
        parse_err("TO XCOR\nEND"),
        LogoError::InvalidProcedureName { name: "XCOR".to_string() }
    );
}

#[test]
fn bare_to_line_is_fatal() {
    assert_eq!(parse_err("TO"), LogoError::MissingProcedureName);
}

#[test]
fn invalid_var_name() {
    // a MAKE whose name token is neither quoted nor a reference is rejected
    assert_eq!(
        parse_err("MAKE X \"5"),
        LogoError::InvalidValue { token: "X".to_string() }
    );
}

#[test]
fn closers_close_the_innermost_open_block_of_either_kind() {
    // the two closers share nothing but the open-block counters, so an END
    // may end a bracketed block and a ] may end a procedure definition
    let cmds = parse_ok("TO F \"x\nIF EQ \"1 \"1 [\nEND\n]");
    match &cmds[0] {
        Command::To(name, _, body) => {
            assert_eq!(name, "F");
            assert!(matches!(body[0], Command::If(_, _)));
        },
        other => panic!("expected a TO command, got {:?}", other),
    }
}

#[test]
fn from_tokens_reads_one_expression_and_leaves_the_rest() {
    let tokens: Vec<String> = vec!["+".to_string(), "\"1".to_string(), "\"2".to_string(), "[".to_string()];
    let (res, pos) = Expression::from_tokens(&tokens, 0);
    let expr = res.expect("expression expected").expect("tokens should suffice");
    assert_eq!(
        expr,
        Expression::Add(
            Box::new(Expression::Value("\"1".to_string())),
            Box::new(Expression::Value("\"2".to_string())),
        )
    );
    assert_eq!(pos, 3);
}

#[test]
fn from_tokens_reports_exhaustion_as_none() {
    let tokens: Vec<String> = vec!["+".to_string(), "\"1".to_string()];
    let (res, pos) = Expression::from_tokens(&tokens, 0);
    assert_eq!(res.expect("no fatal fault expected"), None);
    assert_eq!(pos, 2);
}
