use turtle_logo::ast::{Command, Expression};
use turtle_logo::errors::LogoError;
use turtle_logo::exec::{EFrame, start};
use turtle_logo::turtle::Turtle;

const BUDGET: u64 = 1_000_000;

/// Runs a script on a 200 x 200 canvas to completion and hands back the
/// finished machine.
fn run(src: &str) -> Result<turtle_logo::exec::Machine, LogoError> {
    let (mut machine, mut image) = start(src, 200, 200)?;
    let done = machine.run(&mut image, BUDGET)?;
    assert!(done, "script should finish within the test budget");
    Ok(machine)
}

fn run_err(src: &str) -> LogoError {
    match run(src) {
        Ok(_) => panic!("script should fail fatally"),
        Err(e) => e,
    }
}

fn variable(m: &turtle_logo::exec::Machine, name: &str) -> String {
    m.turtle.read_variable(name).expect("variable should be defined")
}

#[test]
fn turtle_starts_at_canvas_center_pen_up() {
    let m = run("").unwrap();
    assert_eq!((m.turtle.pos_x, m.turtle.pos_y), (100, 100));
    assert!(!m.turtle.pen_down);
    assert_eq!(m.turtle.color, 7);
    assert_eq!(m.turtle.heading, 0);
}

#[test]
fn forward_with_pen_down_draws_to_the_heading_zero_endpoint() {
    let m = run("PENDOWN\nFORWARD \"50").unwrap();
    assert!(m.turtle.pen_down);
    assert_eq!((m.turtle.pos_x, m.turtle.pos_y), (100, 50));
}

#[test]
fn forward_with_pen_up_moves_without_drawing() {
    let m = run("FORWARD \"50").unwrap();
    assert_eq!((m.turtle.pos_x, m.turtle.pos_y), (100, 50));
}

#[test]
fn back_left_right_move_in_their_directions() {
    let m = run("BACK \"30").unwrap();
    assert_eq!((m.turtle.pos_x, m.turtle.pos_y), (100, 130));
    let m = run("LEFT \"30").unwrap();
    assert_eq!((m.turtle.pos_x, m.turtle.pos_y), (70, 100));
    let m = run("RIGHT \"30").unwrap();
    assert_eq!((m.turtle.pos_x, m.turtle.pos_y), (130, 100));
}

#[test]
fn setpencolor_within_palette_succeeds() {
    let m = run("SETPENCOLOR \"15").unwrap();
    assert_eq!(m.turtle.color, 15);
}

#[test]
fn setpencolor_outside_palette_is_fatal() {
    assert_eq!(
        run_err("SETPENCOLOR \"16"),
        LogoError::ColorOutOfRange { index: 16, bound: 16 }
    );
}

#[test]
fn negative_pen_color_is_fatal() {
    assert_eq!(
        run_err("SETPENCOLOR - \"0 \"1"),
        LogoError::ColorOutOfRange { index: -1, bound: 16 }
    );
}

#[test]
fn turn_adds_degrees_without_wraparound() {
    let m = run("TURN \"90\nTURN \"300").unwrap();
    assert_eq!(m.turtle.heading, 390);
}

#[test]
fn setheading_setx_sety_assign_directly() {
    let m = run("SETHEADING \"270\nSETX \"12\nSETY \"-3").unwrap();
    assert_eq!(m.turtle.heading, 270);
    assert_eq!((m.turtle.pos_x, m.turtle.pos_y), (12, -3));
}

#[test]
fn make_then_addassign_accumulates_text() {
    let m = run("MAKE \"X \"5\nADDASSIGN \"X \"3").unwrap();
    assert_eq!(variable(&m, "X"), "8");
}

#[test]
fn addassign_on_undefined_variable_is_fatal() {
    assert_eq!(
        run_err("ADDASSIGN \"Y \"1"),
        LogoError::VariableNotFound { name: "Y".to_string() }
    );
}

#[test]
fn addassign_on_non_integer_text_is_fatal() {
    assert_eq!(
        run_err("MAKE \"X \"hello\nADDASSIGN \"X \"1"),
        LogoError::NonIntegerVariable { name: "X".to_string() }
    );
}

#[test]
fn undefined_variable_reference_is_fatal() {
    assert_eq!(
        run_err("FORWARD :missing"),
        LogoError::VariableNotFound { name: "missing".to_string() }
    );
}

#[test]
fn division_by_zero_is_fatal() {
    assert_eq!(run_err("FORWARD / \"10 \"0"), LogoError::DivisionByZero);
    assert_eq!(run_err("MAKE \"X / \"10 \"0"), LogoError::DivisionByZero);
}

#[test]
fn division_truncates_toward_zero() {
    let m = run("MAKE \"A / \"7 \"2\nMAKE \"B / \"-7 \"2").unwrap();
    assert_eq!(variable(&m, "A"), "3");
    assert_eq!(variable(&m, "B"), "-3");
}

#[test]
fn arithmetic_combines_as_integers() {
    let m = run("MAKE \"S + \"2 \"3\nMAKE \"D - \"2 \"5\nMAKE \"P * \"4 \"6").unwrap();
    assert_eq!(variable(&m, "S"), "5");
    assert_eq!(variable(&m, "D"), "-3");
    assert_eq!(variable(&m, "P"), "24");
}

#[test]
fn arithmetic_overflow_is_fatal() {
    assert_eq!(
        run_err("MAKE \"X + \"2147483647 \"1"),
        LogoError::ArithmeticOverflow
    );
}

#[test]
fn comparisons_compare_text_and_numbers() {
    let m = run(
        "MAKE \"A EQ \"5 + \"2 \"3\nMAKE \"B EQ \"007 \"7\nMAKE \"C NE \"a \"b\nMAKE \"D GT \"3 \"2\nMAKE \"E LT \"3 \"2",
    )
    .unwrap();
    assert_eq!(variable(&m, "A"), "true");
    assert_eq!(variable(&m, "B"), "false");
    assert_eq!(variable(&m, "C"), "true");
    assert_eq!(variable(&m, "D"), "true");
    assert_eq!(variable(&m, "E"), "false");
}

#[test]
fn and_or_need_boolean_operands() {
    let m = run("MAKE \"A AND \"true \"false\nMAKE \"B OR \"true \"false").unwrap();
    assert_eq!(variable(&m, "A"), "false");
    assert_eq!(variable(&m, "B"), "true");
    assert_eq!(
        run_err("MAKE \"A AND \"1 \"true"),
        LogoError::UnparsableValue { token: "1".to_string() }
    );
}

#[test]
fn non_integer_text_where_integer_needed_is_fatal() {
    assert_eq!(
        run_err("FORWARD \"abc"),
        LogoError::UnparsableValue { token: "abc".to_string() }
    );
}

#[test]
fn queries_read_live_turtle_state() {
    let m = run("SETX \"7\nSETY \"9\nTURN \"45\nSETPENCOLOR \"3\nMAKE \"X XCOR\nMAKE \"Y ycor\nMAKE \"H HEADING\nMAKE \"C COLOR")
        .unwrap();
    assert_eq!(variable(&m, "X"), "7");
    assert_eq!(variable(&m, "Y"), "9");
    assert_eq!(variable(&m, "H"), "45");
    assert_eq!(variable(&m, "C"), "3");
}

#[test]
fn if_runs_its_body_once_when_truthy() {
    let m = run("MAKE \"X \"0\nIF EQ \"1 \"1 [\nADDASSIGN \"X \"1\n]").unwrap();
    assert_eq!(variable(&m, "X"), "1");
}

#[test]
fn if_skips_its_body_when_falsy() {
    let m = run("MAKE \"X \"0\nIF EQ \"1 \"2 [\nADDASSIGN \"X \"1\n]\nIF \"0 [\nADDASSIGN \"X \"1\n]\nIF \"false [\nADDASSIGN \"X \"1\n]")
        .unwrap();
    assert_eq!(variable(&m, "X"), "0");
}

#[test]
fn any_other_text_counts_as_truthy() {
    let m = run("MAKE \"X \"0\nIF \"5 [\nADDASSIGN \"X \"1\n]").unwrap();
    assert_eq!(variable(&m, "X"), "1");
}

#[test]
fn while_re_evaluates_its_condition_each_pass() {
    let m = run("MAKE \"I \"0\nWHILE LT :I \"3 [\nADDASSIGN \"I \"1\n]").unwrap();
    assert_eq!(variable(&m, "I"), "3");
}

#[test]
fn endless_while_reports_pending_work_within_any_budget() {
    let (mut machine, mut image) = start("WHILE EQ \"1 \"1 [\nFORWARD \"1\n]", 200, 200).unwrap();
    let done = machine.run(&mut image, 10_000).unwrap();
    assert!(!done, "an always-true WHILE never finishes");
    let done = machine.run(&mut image, 10_000).unwrap();
    assert!(!done, "resuming the run leaves it unfinished still");
}

#[test]
fn procedure_call_binds_parameters_in_the_flat_namespace() {
    let m = run("TO STEP \"n\nFORWARD :n\nEND\nSTEP \"25").unwrap();
    assert_eq!((m.turtle.pos_x, m.turtle.pos_y), (100, 75));
    assert_eq!(variable(&m, "n"), "25");
}

#[test]
fn undefined_procedure_call_is_fatal() {
    assert_eq!(
        run_err("SPIN \"1"),
        LogoError::ProcedureNotFound { name: "SPIN".to_string() }
    );
}

#[test]
fn procedure_call_arity_mismatch_is_fatal() {
    assert_eq!(
        run_err("TO STEP \"n\nFORWARD :n\nEND\nSTEP \"1 \"2"),
        LogoError::ProcedureArityMismatch {
            name: "STEP".to_string(),
            received: 2,
            expected: 1,
        }
    );
}

#[test]
fn procedure_redefinition_overwrites() {
    let m = run("TO STEP\nFORWARD \"10\nEND\nTO STEP\nFORWARD \"20\nEND\nSTEP").unwrap();
    assert_eq!(m.turtle.pos_y, 80);
}

#[test]
fn moves_from_extreme_coordinates_are_fatal() {
    assert_eq!(
        run_err("SETX \"2000000000\nFORWARD \"1"),
        LogoError::PositionOutOfRange
    );
}

#[test]
fn make_overwrites_an_existing_binding() {
    let m = run("MAKE \"X \"1\nMAKE \"Y \"2\nMAKE \"X \"3").unwrap();
    assert_eq!(variable(&m, "X"), "3");
    assert_eq!(variable(&m, "Y"), "2");
}

#[test]
fn fatal_command_leaves_the_environment_unchanged() {
    let mut turtle = Turtle::new(200, 200);
    let mut stack: Vec<EFrame> = Vec::new();
    let mut image = unsvg::Image::new(200, 200);
    let c = Command::SetPenColor(Expression::Value("\"16".to_string()));
    let r = c.execute(&mut turtle, &mut stack, &mut image);
    assert_eq!(r, Err(LogoError::ColorOutOfRange { index: 16, bound: 16 }));
    assert_eq!(turtle.color, 7);
    assert_eq!((turtle.pos_x, turtle.pos_y), (100, 100));
    assert!(stack.is_empty());
}

#[test]
fn canvas_has_the_requested_dimensions() {
    let (_machine, image) = start("", 200, 100).unwrap();
    assert_eq!(image.get_dimensions(), (200, 100));
}
