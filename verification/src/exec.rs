//! The execution engine: a small-step machine that walks the command tree
//! in document order against the mutable environment.
//!
//! The machine state is the turtle together with a stack of work frames: a
//! `Block` of commands still to run, or a `Loop` awaiting the next check of
//! its condition. One step handles one command, closes one finished block,
//! or re-checks one loop condition; a fatal fault ends the run at once. A
//! `While` whose condition never turns false steps forever, as the language
//! demands, so the engine's contract speaks of the machine's result after
//! some number of steps.

use vstd::prelude::*;
use crate::ast::{
    CmdV, Command, ExprV, Expression, Procedure, cmds_dv, duplicate_cmds, lemma_vec_dv, vec_dv,
};
use crate::canvas::{COORD_LIMIT, compute_endpoint, draw_line, end_point_of, report_draw_failure};
use crate::errors::{ErrV, LogoError};
use crate::eval::{eval_int, evaluate_expression, spec_eval, spec_eval_int};
use crate::turtle::{
    ProcV, Turtle, TurtleV, add_var, define_proc, find_proc, turtle_wf, write_var, PALETTE_SIZE,
};
use crate::value::{text_of, truthy, value_text, value_truthy};

verus! {

/// A unit of pending work: commands still to run, or a loop awaiting its
/// next condition check.
#[verifier::ext_equal]
pub enum EFrameV {
    Block(Seq<CmdV>),
    Loop(ExprV, Seq<CmdV>),
}

/// The machine's state: the environment and the stack of pending work.
#[verifier::ext_equal]
pub struct MStateV {
    pub t: TurtleV,
    pub frames: Seq<EFrameV>,
}

/// The outcome of one machine step.
pub enum StepV {
    Running(MStateV),
    Done(Result<TurtleV, ErrV>),
}

/// The machine about to run `cmds` against environment `t`.
pub open spec fn init_mstate(t: TurtleV, cmds: Seq<CmdV>) -> MStateV {
    MStateV { t, frames: seq![EFrameV::Block(cmds)] }
}

/// The degrees of a heading reduced to one turn, as the canvas reduces it.
pub open spec fn norm_deg(d: int) -> int {
    d % 360
}

/// Where a move of `length` at `delta` degrees from the turtle's heading
/// leaves the turtle, or the fatal fault when the move's arguments are
/// beyond the coordinate range the canvas accepts.
pub open spec fn spec_move(t: TurtleV, delta: int, length: int) -> Result<TurtleV, ErrV> {
    if t.x < -COORD_LIMIT as int || t.x > COORD_LIMIT as int || t.y < -COORD_LIMIT as int || t.y
        > COORD_LIMIT as int || length < -COORD_LIMIT as int || length > COORD_LIMIT as int {
        Err(ErrV::PositionOutOfRange)
    } else {
        let p = end_point_of(t.x, t.y, norm_deg(t.heading + delta), length);
        Ok(TurtleV { x: p.0, y: p.1, ..t })
    }
}

/// Each expression of `es` evaluated, left to right, to its canonical text.
pub open spec fn spec_eval_texts(t: TurtleV, es: Seq<ExprV>) -> Result<Seq<Seq<char>>, ErrV>
    decreases es.len(),
{
    if es.len() == 0 {
        Ok(Seq::empty())
    } else {
        match spec_eval(t, es[0]) {
            Err(e) => Err(e),
            Ok(v) => match spec_eval_texts(t, es.skip(1)) {
                Err(e) => Err(e),
                Ok(rest) => Ok(seq![text_of(v)] + rest),
            },
        }
    }
}

/// The variable table after binding each name to the matching value, in
/// order, in the one flat namespace.
pub open spec fn bind_all(
    vars: Seq<(Seq<char>, Seq<char>)>,
    names: Seq<Seq<char>>,
    vals: Seq<Seq<char>>,
) -> Seq<(Seq<char>, Seq<char>)>
    decreases names.len(),
{
    if names.len() == 0 || vals.len() == 0 {
        vars
    } else {
        bind_all(write_var(vars, names[0], vals[0]), names.skip(1), vals.skip(1))
    }
}

/// One command applied to the machine whose top frame has already consumed
/// it.
pub open spec fn step_cmd(st: MStateV, c: CmdV) -> StepV {
    let t = st.t;
    match c {
        CmdV::PenUp => StepV::Running(MStateV { t: TurtleV { pen_down: false, ..t }, ..st }),
        CmdV::PenDown => StepV::Running(MStateV { t: TurtleV { pen_down: true, ..t }, ..st }),
        CmdV::Forward(e) => step_move(st, e, 0),
        CmdV::Back(e) => step_move(st, e, 180),
        CmdV::Left(e) => step_move(st, e, -90),
        CmdV::Right(e) => step_move(st, e, 90),
        CmdV::SetPenColor(e) => match spec_eval_int(t, e) {
            Err(er) => StepV::Done(Err(er)),
            Ok(i) => if i < 0 || i >= PALETTE_SIZE as int {
                StepV::Done(Err(ErrV::ColorOutOfRange { index: i, bound: PALETTE_SIZE as nat }))
            } else {
                StepV::Running(MStateV { t: TurtleV { color: i, ..t }, ..st })
            },
        },
        CmdV::Turn(e) => match spec_eval_int(t, e) {
            Err(er) => StepV::Done(Err(er)),
            Ok(i) => if -0x8000_0000 <= t.heading + i <= 0x7fff_ffff {
                StepV::Running(MStateV { t: TurtleV { heading: t.heading + i, ..t }, ..st })
            } else {
                StepV::Done(Err(ErrV::ArithmeticOverflow))
            },
        },
        CmdV::SetHeading(e) => match spec_eval_int(t, e) {
            Err(er) => StepV::Done(Err(er)),
            Ok(i) => StepV::Running(MStateV { t: TurtleV { heading: i, ..t }, ..st }),
        },
        CmdV::SetX(e) => match spec_eval_int(t, e) {
            Err(er) => StepV::Done(Err(er)),
            Ok(i) => StepV::Running(MStateV { t: TurtleV { x: i, ..t }, ..st }),
        },
        CmdV::SetY(e) => match spec_eval_int(t, e) {
            Err(er) => StepV::Done(Err(er)),
            Ok(i) => StepV::Running(MStateV { t: TurtleV { y: i, ..t }, ..st }),
        },
        CmdV::Make(n, v) => match spec_eval(t, n) {
            Err(er) => StepV::Done(Err(er)),
            Ok(nv) => match spec_eval(t, v) {
                Err(er) => StepV::Done(Err(er)),
                Ok(vv) => StepV::Running(
                    MStateV {
                        t: TurtleV { vars: write_var(t.vars, text_of(nv), text_of(vv)), ..t },
                        ..st
                    },
                ),
            },
        },
        CmdV::AddAssign(n, v) => match spec_eval(t, n) {
            Err(er) => StepV::Done(Err(er)),
            Ok(nv) => match spec_eval_int(t, v) {
                Err(er) => StepV::Done(Err(er)),
                Ok(delta) => match add_var(t.vars, text_of(nv), delta) {
                    Err(er) => StepV::Done(Err(er)),
                    Ok(vars2) => StepV::Running(
                        MStateV { t: TurtleV { vars: vars2, ..t }, ..st },
                    ),
                },
            },
        },
        CmdV::If(e, body) => match spec_eval(t, e) {
            Err(er) => StepV::Done(Err(er)),
            Ok(v) => if truthy(v) {
                StepV::Running(MStateV { frames: st.frames.push(EFrameV::Block(body)), ..st })
            } else {
                StepV::Running(st)
            },
        },
        CmdV::While(e, body) => StepV::Running(
            MStateV { frames: st.frames.push(EFrameV::Loop(e, body)), ..st },
        ),
        CmdV::To(name, params, body) => match spec_eval_texts(t, params) {
            Err(er) => StepV::Done(Err(er)),
            Ok(names) => StepV::Running(
                MStateV {
                    t: TurtleV {
                        procs: define_proc(t.procs, ProcV { name, params: names, body }),
                        ..t
                    },
                    ..st
                },
            ),
        },
        CmdV::Procedure(name, args) => {
            let j = find_proc(t.procs, name);
            if j >= t.procs.len() {
                StepV::Done(Err(ErrV::ProcedureNotFound { name }))
            } else {
                let p = t.procs[j];
                if args.len() != p.params.len() {
                    StepV::Done(
                        Err(
                            ErrV::ProcedureArityMismatch {
                                name,
                                received: args.len(),
                                expected: p.params.len(),
                            },
                        ),
                    )
                } else {
                    match spec_eval_texts(t, args) {
                        Err(er) => StepV::Done(Err(er)),
                        Ok(vals) => StepV::Running(
                            MStateV {
                                t: TurtleV { vars: bind_all(t.vars, p.params, vals), ..t },
                                frames: st.frames.push(EFrameV::Block(p.body)),
                            },
                        ),
                    }
                }
            }
        },
    }
}

/// A move command: the length evaluated, then the turtle carried to the
/// segment's endpoint whether or not the pen drew it.
pub open spec fn step_move(st: MStateV, e: ExprV, delta: int) -> StepV {
    match spec_eval_int(st.t, e) {
        Err(er) => StepV::Done(Err(er)),
        Ok(len) => match spec_move(st.t, delta, len) {
            Err(er) => StepV::Done(Err(er)),
            Ok(t2) => StepV::Running(MStateV { t: t2, ..st }),
        },
    }
}

/// One machine step.
pub open spec fn step(st: MStateV) -> StepV {
    if st.frames.len() == 0 {
        StepV::Done(Ok(st.t))
    } else {
        match st.frames.last() {
            EFrameV::Block(cmds) => {
                if cmds.len() == 0 {
                    StepV::Running(MStateV { frames: st.frames.drop_last(), ..st })
                } else {
                    let rest = MStateV {
                        frames: st.frames.update(
                            st.frames.len() - 1,
                            EFrameV::Block(cmds.skip(1)),
                        ),
                        ..st
                    };
                    step_cmd(rest, cmds[0])
                }
            },
            EFrameV::Loop(e, body) => match spec_eval(st.t, e) {
                Err(er) => StepV::Done(Err(er)),
                Ok(v) => if truthy(v) {
                    StepV::Running(MStateV { frames: st.frames.push(EFrameV::Block(body)), ..st })
                } else {
                    StepV::Running(MStateV { frames: st.frames.drop_last(), ..st })
                },
            },
        }
    }
}

/// The machine after `n` steps: still running, or done with its result.
pub open spec fn run_n(st: MStateV, n: nat) -> StepV
    decreases n,
{
    if n == 0 {
        StepV::Running(st)
    } else {
        match step(st) {
            StepV::Done(r) => StepV::Done(r),
            StepV::Running(s2) => run_n(s2, (n - 1) as nat),
        }
    }
}

/// Taking one more step applies `step` to wherever `n` steps arrived.
#[verifier::rlimit(80)]
#[verifier::spinoff_prover]
pub proof fn lemma_run_snoc(st: MStateV, n: nat)
    ensures
        run_n(st, n + 1) == (match run_n(st, n) {
            StepV::Done(r) => StepV::Done(r),
            StepV::Running(s2) => step(s2),
        }),
    decreases n,
{
    if n > 0 {
        match step(st) {
            StepV::Done(r) => {
                assert(run_n(st, n + 1) == StepV::Done(r));
                assert(run_n(st, n) == StepV::Done(r));
            },
            StepV::Running(s2) => {
                lemma_run_snoc(s2, (n - 1) as nat);
                assert(run_n(st, n + 1) == run_n(s2, n));
                assert(run_n(s2, ((n - 1) as nat) + 1) == run_n(s2, n));
                assert(run_n(st, n) == run_n(s2, (n - 1) as nat));
                match run_n(s2, (n - 1) as nat) {
                    StepV::Done(r2) => {
                        assert(run_n(s2, n) == StepV::Done(r2));
                        assert(run_n(st, n) == StepV::Done(r2));
                        assert(run_n(st, n + 1) == StepV::Done(r2));
                    },
                    StepV::Running(s3) => {
                        assert(run_n(s2, n) == step(s3));
                        assert(run_n(st, n) == StepV::Running(s3));
                        assert(run_n(st, n + 1) == step(s3));
                    },
                }
            },
        }
    } else {
        assert(run_n(st, 0) == StepV::Running(st));
        match step(st) {
            StepV::Done(r) => {
                assert(run_n(st, 1) == StepV::Done(r));
            },
            StepV::Running(s2) => {
                assert(run_n(s2, 0) == StepV::Running(s2));
                assert(run_n(st, 1) == StepV::Running(s2));
                assert(StepV::Running(s2) == step(st));
            },
        }
    }
}

/// Reduces a heading in degrees to one turn, as the canvas reduces it.
fn norm_deg_i64(h: i64) -> (r: i32)
    requires
        -0x7fff_ffff_ffff_ffffi64 <= h,
    ensures
        r as int == norm_deg(h as int),
        0 <= r < 360,
{
    let neg = h < 0;
    let ua: u64 = if neg {
        (-h) as u64
    } else {
        h as u64
    };
    let rem: u64 = ua % 360;
    proof {
        if neg {
            let ia = ua as int;
            vstd::arithmetic::div_mod::lemma_fundamental_div_mod(ia, 360);
            if ia % 360 == 0 {
                vstd::arithmetic::div_mod::lemma_fundamental_div_mod_converse(
                    -ia,
                    360,
                    -(ia / 360),
                    0,
                );
            } else {
                vstd::arithmetic::div_mod::lemma_fundamental_div_mod_converse(
                    -ia,
                    360,
                    -(ia / 360) - 1,
                    360 - ia % 360,
                );
            }
        }
    }
    if neg && rem != 0 {
        (360 - rem) as i32
    } else {
        rem as i32
    }
}

/// Moves the turtle by `length` at `delta` degrees from its heading: with
/// the pen down the canvas draws the segment, and either way the turtle
/// stands at the segment's endpoint afterwards. A failure the canvas
/// reports while drawing is logged and not fatal; only arguments beyond
/// the canvas's coordinate range are.
pub fn pen_move(image: &mut unsvg::Image, turtle: &mut Turtle, delta: i32, length: i32) -> (r:
    Result<(), LogoError>)
    requires
        turtle_wf(old(turtle)@),
        delta == 0 || delta == 180 || delta == -90 || delta == 90,
    ensures
        match r {
            Ok(_) => spec_move(old(turtle)@, delta as int, length as int) == Ok::<
                TurtleV,
                ErrV,
            >(final(turtle)@) && turtle_wf(final(turtle)@),
            Err(e) => spec_move(old(turtle)@, delta as int, length as int) == Err::<
                TurtleV,
                ErrV,
            >(e@) && final(turtle)@ == old(turtle)@,
        },
{
    if turtle.pos_x < -COORD_LIMIT || turtle.pos_x > COORD_LIMIT || turtle.pos_y < -COORD_LIMIT
        || turtle.pos_y > COORD_LIMIT || length < -COORD_LIMIT || length > COORD_LIMIT {
        return Err(LogoError::PositionOutOfRange);
    }
    let h: i64 = turtle.heading as i64 + delta as i64;
    let dir = norm_deg_i64(h);
    let p: (i32, i32) = if turtle.pen_down {
        match draw_line(image, turtle.pos_x, turtle.pos_y, dir, length, turtle.color) {
            Ok(p) => p,
            Err(msg) => {
                report_draw_failure(msg.as_str());
                compute_endpoint(turtle.pos_x, turtle.pos_y, dir, length)
            },
        }
    } else {
        compute_endpoint(turtle.pos_x, turtle.pos_y, dir, length)
    };
    turtle.pos_x = p.0;
    turtle.pos_y = p.1;
    proof {
        assert(turtle@ =~~= (match spec_move(old(turtle)@, delta as int, length as int) {
            Ok(t2) => t2,
            Err(_) => turtle@,
        }));
    }
    Ok(())
}

/// Evaluates each expression, left to right, to its canonical text.
fn eval_texts(t: &Turtle, es: &Vec<Expression>) -> (r: Result<Vec<String>, LogoError>)
    requires
        turtle_wf(t@),
    ensures
        match r {
            Ok(vals) => spec_eval_texts(t@, crate::ast::exprs_dv(es@)) == Ok::<
                Seq<Seq<char>>,
                ErrV,
            >(vals.deep_view()) && vals@.len() == es@.len(),
            Err(e) => spec_eval_texts(t@, crate::ast::exprs_dv(es@)) == Err::<
                Seq<Seq<char>>,
                ErrV,
            >(e@),
        },
{
    let ghost esv = crate::ast::exprs_dv(es@);
    let mut out: Vec<String> = Vec::new();
    let mut i: usize = 0;
    proof {
        assert(out.deep_view() =~~= Seq::<Seq<char>>::empty());
        assert(esv.skip(0) =~= esv);
        assert(Seq::<Seq<char>>::empty() + (match spec_eval_texts(t@, esv) {
            Ok(rest) => rest,
            Err(_) => Seq::<Seq<char>>::empty(),
        }) =~= (match spec_eval_texts(t@, esv) {
            Ok(rest) => rest,
            Err(_) => Seq::<Seq<char>>::empty(),
        }));
    }
    while i < es.len()
        invariant
            turtle_wf(t@),
            esv == crate::ast::exprs_dv(es@),
            esv.len() == es@.len(),
            i <= es@.len(),
            out@.len() == i,
            match spec_eval_texts(t@, esv.skip(i as int)) {
                Ok(rest) => spec_eval_texts(t@, esv) == Ok::<Seq<Seq<char>>, ErrV>(
                    out.deep_view() + rest,
                ),
                Err(e) => spec_eval_texts(t@, esv) == Err::<Seq<Seq<char>>, ErrV>(e),
            },
        decreases es@.len() - i,
    {
        let ghost tail = esv.skip(i as int);
        proof {
            assert(tail[0] == esv[i as int]);
            assert(esv[i as int] == es@[i as int].dv());
            assert(tail.skip(1) =~= esv.skip(i as int + 1));
        }
        match evaluate_expression(t, &es[i]) {
            Err(e) => {
                return Err(e);
            },
            Ok(v) => {
                let s = value_text(&v);
                let ghost out0 = out.deep_view();
                out.push(s);
                proof {
                    assert(out.deep_view() =~~= out0.push(text_of(v@)));
                    match spec_eval_texts(t@, esv.skip(i as int + 1)) {
                        Ok(rest) => {
                            assert(out.deep_view() + rest =~= out0 + (seq![text_of(v@)] + rest));
                        },
                        Err(_) => {},
                    }
                }
            },
        }
        i = i + 1;
    }
    proof {
        assert(esv.skip(es@.len() as int) =~= Seq::<ExprV>::empty());
        assert(out.deep_view() + Seq::<Seq<char>>::empty() =~= out.deep_view());
    }
    Ok(out)
}

/// An owned copy of a vector of strings with the same views.
fn clone_strings(v: &Vec<String>) -> (r: Vec<String>)
    ensures
        r.deep_view() == v.deep_view(),
        r@.len() == v@.len(),
{
    let mut out: Vec<String> = Vec::new();
    let mut i: usize = 0;
    while i < v.len()
        invariant
            i <= v@.len(),
            out@.len() == i,
            forall|k: int| 0 <= k < i ==> out@[k]@ == v@[k]@,
        decreases v@.len() - i,
    {
        out.push(v[i].clone());
        i = i + 1;
    }
    proof {
        assert(out.deep_view() =~~= v.deep_view());
    }
    out
}

/// Binds each parameter name to the matching argument text, in order, in
/// the flat variable table.
fn bind_params(turtle: &mut Turtle, names: &Vec<String>, vals: &Vec<String>)
    requires
        names@.len() == vals@.len(),
    ensures
        final(turtle)@.vars == bind_all(old(turtle)@.vars, names.deep_view(), vals.deep_view()),
        final(turtle)@.pen_down == old(turtle)@.pen_down,
        final(turtle)@.color == old(turtle)@.color,
        final(turtle)@.heading == old(turtle)@.heading,
        final(turtle)@.x == old(turtle)@.x,
        final(turtle)@.y == old(turtle)@.y,
        final(turtle)@.procs == old(turtle)@.procs,
{
    let ghost ndv = names.deep_view();
    let ghost vdv = vals.deep_view();
    let mut k: usize = 0;
    proof {
        assert(ndv.skip(0) =~= ndv);
        assert(vdv.skip(0) =~= vdv);
    }
    while k < names.len()
        invariant
            names@.len() == vals@.len(),
            ndv == names.deep_view(),
            vdv == vals.deep_view(),
            ndv.len() == names@.len(),
            vdv.len() == vals@.len(),
            k <= names@.len(),
            bind_all(turtle@.vars, ndv.skip(k as int), vdv.skip(k as int)) == bind_all(
                old(turtle)@.vars,
                ndv,
                vdv,
            ),
            turtle@.pen_down == old(turtle)@.pen_down,
            turtle@.color == old(turtle)@.color,
            turtle@.heading == old(turtle)@.heading,
            turtle@.x == old(turtle)@.x,
            turtle@.y == old(turtle)@.y,
            turtle@.procs == old(turtle)@.procs,
        decreases names@.len() - k,
    {
        let ghost vars0 = turtle@.vars;
        proof {
            assert(ndv.skip(k as int)[0] == ndv[k as int]);
            assert(vdv.skip(k as int)[0] == vdv[k as int]);
            assert(ndv.skip(k as int).skip(1) =~= ndv.skip(k as int + 1));
            assert(vdv.skip(k as int).skip(1) =~= vdv.skip(k as int + 1));
        }
        turtle.write_variable(names[k].as_str(), vals[k].clone());
        k = k + 1;
    }
    proof {
        assert(ndv.skip(names@.len() as int).len() == 0);
    }
}

impl Command {
    /// Performs one command against the environment and the canvas. Block
    /// and call commands push the work they open onto the machine's frame
    /// stack rather than running it at once.
    #[verifier::rlimit(100)]
    #[verifier::spinoff_prover]
    pub fn execute(self, turtle: &mut Turtle, stack: &mut Vec<EFrame>, image: &mut unsvg::Image)
        -> (r: Result<(), LogoError>)
        requires
            turtle_wf(old(turtle)@),
        ensures
            match r {
                Ok(_) => step_cmd(
                    MStateV { t: old(turtle)@, frames: frames_v(old(stack)@) },
                    self.dv(),
                ) == StepV::Running(
                    MStateV { t: final(turtle)@, frames: frames_v(final(stack)@) },
                ) && turtle_wf(final(turtle)@),
                Err(e) => step_cmd(
                    MStateV { t: old(turtle)@, frames: frames_v(old(stack)@) },
                    self.dv(),
                ) == StepV::Done(Err::<TurtleV, ErrV>(e@)) && final(turtle)@ == old(turtle)@
                    && final(stack)@ == old(stack)@,
            },
    {
        broadcast use lemma_vec_dv;

        let ghost st0 = MStateV { t: turtle@, frames: frames_v(stack@) };
        let ghost selfv = self.dv();
        match self {
            Command::PenUp => {
                turtle.pen_down = false;
                proof {
                    assert(turtle@ =~~= TurtleV { pen_down: false, ..st0.t });
                    assert(step_cmd(st0, selfv) == StepV::Running(MStateV { t: turtle@, frames: frames_v(stack@) }));
                }
                Ok(())
            },
            Command::PenDown => {
                turtle.pen_down = true;
                proof {
                    assert(turtle@ =~~= TurtleV { pen_down: true, ..st0.t });
                    assert(step_cmd(st0, selfv) == StepV::Running(MStateV { t: turtle@, frames: frames_v(stack@) }));
                }
                Ok(())
            },
            Command::Forward(e) => {
                let len = match eval_int(turtle, &e) {
                    Err(er) => {
                        return Err(er);
                    },
                    Ok(len) => len,
                };
                match pen_move(image, turtle, 0, len) {
                    Err(er) => Err(er),
                    Ok(_) => {
                        proof {
                            assert(step_cmd(st0, selfv) == StepV::Running(MStateV { t: turtle@, frames: frames_v(stack@) }));
                        }
                        Ok(())
                    },
                }
            },
            Command::Back(e) => {
                let len = match eval_int(turtle, &e) {
                    Err(er) => {
                        return Err(er);
                    },
                    Ok(len) => len,
                };
                match pen_move(image, turtle, 180, len) {
                    Err(er) => Err(er),
                    Ok(_) => {
                        proof {
                            assert(step_cmd(st0, selfv) == StepV::Running(MStateV { t: turtle@, frames: frames_v(stack@) }));
                        }
                        Ok(())
                    },
                }
            },
            Command::Left(e) => {
                let len = match eval_int(turtle, &e) {
                    Err(er) => {
                        return Err(er);
                    },
                    Ok(len) => len,
                };
                match pen_move(image, turtle, -90, len) {
                    Err(er) => Err(er),
                    Ok(_) => {
                        proof {
                            assert(step_cmd(st0, selfv) == StepV::Running(MStateV { t: turtle@, frames: frames_v(stack@) }));
                        }
                        Ok(())
                    },
                }
            },
            Command::Right(e) => {
                let len = match eval_int(turtle, &e) {
                    Err(er) => {
                        return Err(er);
                    },
                    Ok(len) => len,
                };
                match pen_move(image, turtle, 90, len) {
                    Err(er) => Err(er),
                    Ok(_) => {
                        proof {
                            assert(step_cmd(st0, selfv) == StepV::Running(MStateV { t: turtle@, frames: frames_v(stack@) }));
                        }
                        Ok(())
                    },
                }
            },
            Command::SetPenColor(e) => {
                let i = match eval_int(turtle, &e) {
                    Err(er) => {
                        return Err(er);
                    },
                    Ok(i) => i,
                };
                if i < 0 || i >= 16i32 {
                    return Err(LogoError::ColorOutOfRange { index: i, bound: PALETTE_SIZE });
                }
                turtle.color = i as usize;
                proof {
                    assert(turtle@ =~~= TurtleV { color: i as int, ..st0.t });
                    assert(step_cmd(st0, selfv) == StepV::Running(MStateV { t: turtle@, frames: frames_v(stack@) }));
                }
                Ok(())
            },
            Command::Turn(e) => {
                let i = match eval_int(turtle, &e) {
                    Err(er) => {
                        return Err(er);
                    },
                    Ok(i) => i,
                };
                let nh: i64 = turtle.heading as i64 + i as i64;
                if nh < -0x8000_0000i64 || nh > 0x7fff_ffffi64 {
                    return Err(LogoError::ArithmeticOverflow);
                }
                turtle.heading = nh as i32;
                proof {
                    assert(turtle@ =~~= TurtleV { heading: st0.t.heading + i as int, ..st0.t });
                    assert(step_cmd(st0, selfv) == StepV::Running(MStateV { t: turtle@, frames: frames_v(stack@) }));
                }
                Ok(())
            },
            Command::SetHeading(e) => {
                let i = match eval_int(turtle, &e) {
                    Err(er) => {
                        return Err(er);
                    },
                    Ok(i) => i,
                };
                turtle.heading = i;
                proof {
                    assert(turtle@ =~~= TurtleV { heading: i as int, ..st0.t });
                    assert(step_cmd(st0, selfv) == StepV::Running(MStateV { t: turtle@, frames: frames_v(stack@) }));
                }
                Ok(())
            },
            Command::SetX(e) => {
                let i = match eval_int(turtle, &e) {
                    Err(er) => {
                        return Err(er);
                    },
                    Ok(i) => i,
                };
                turtle.pos_x = i;
                proof {
                    assert(turtle@ =~~= TurtleV { x: i as int, ..st0.t });
                    assert(step_cmd(st0, selfv) == StepV::Running(MStateV { t: turtle@, frames: frames_v(stack@) }));
                }
                Ok(())
            },
            Command::SetY(e) => {
                let i = match eval_int(turtle, &e) {
                    Err(er) => {
                        return Err(er);
                    },
                    Ok(i) => i,
                };
                turtle.pos_y = i;
                proof {
                    assert(turtle@ =~~= TurtleV { y: i as int, ..st0.t });
                    assert(step_cmd(st0, selfv) == StepV::Running(MStateV { t: turtle@, frames: frames_v(stack@) }));
                }
                Ok(())
            },
            Command::Make(n, v) => {
                let nv = match evaluate_expression(turtle, &n) {
                    Err(er) => {
                        return Err(er);
                    },
                    Ok(nv) => nv,
                };
                let vv = match evaluate_expression(turtle, &v) {
                    Err(er) => {
                        return Err(er);
                    },
                    Ok(vv) => vv,
                };
                let name = value_text(&nv);
                turtle.write_variable(name.as_str(), value_text(&vv));
                proof {
                    assert(turtle@ =~~= TurtleV {
                        vars: write_var(st0.t.vars, text_of(nv@), text_of(vv@)),
                        ..st0.t
                    });
                    assert(step_cmd(st0, selfv) == StepV::Running(MStateV { t: turtle@, frames: frames_v(stack@) }));
                }
                Ok(())
            },
            Command::AddAssign(n, v) => {
                let nv = match evaluate_expression(turtle, &n) {
                    Err(er) => {
                        return Err(er);
                    },
                    Ok(nv) => nv,
                };
                let delta = match eval_int(turtle, &v) {
                    Err(er) => {
                        return Err(er);
                    },
                    Ok(delta) => delta,
                };
                let name = value_text(&nv);
                match turtle.add_to_variable(name.as_str(), delta) {
                    Err(er) => Err(er),
                    Ok(_) => {
                        proof {
                            assert(turtle@ =~~= TurtleV {
                                vars: add_var(st0.t.vars, text_of(nv@), delta as int)->Ok_0,
                                ..st0.t
                            });
                            assert(step_cmd(st0, selfv) == StepV::Running(MStateV { t: turtle@, frames: frames_v(stack@) }));
                        }
                        Ok(())
                    },
                }
            },
            Command::If(e, body) => {
                proof {
                    lemma_vec_dv(body);
                    assert(selfv == CmdV::If(e.dv(), cmds_dv(body@)));
                }
                let v = match evaluate_expression(turtle, &e) {
                    Err(er) => {
                        return Err(er);
                    },
                    Ok(v) => v,
                };
                if value_truthy(&v) {
                    let ghost bodyv = cmds_dv(body@);
                    stack.push(EFrame::Block { cmds: body, at: 0 });
                    proof {
                        assert(frames_v(stack@) =~~= st0.frames.push(EFrameV::Block(bodyv)));
                        assert(step_cmd(st0, selfv) == StepV::Running(
                            MStateV { t: turtle@, frames: frames_v(stack@) },
                        ));
                    }
                } else {
                    proof {
                        assert(MStateV { t: turtle@, frames: frames_v(stack@) } =~~= st0);
                        assert(step_cmd(st0, selfv) == StepV::Running(st0));
                    }
                }
                Ok(())
            },
            Command::While(e, body) => {
                proof {
                    lemma_vec_dv(body);
                    assert(selfv == CmdV::While(e.dv(), cmds_dv(body@)));
                }
                let ghost ev = e.dv();
                let ghost bodyv = cmds_dv(body@);
                stack.push(EFrame::Loop { cond: e, body });
                proof {
                    assert(frames_v(stack@) =~~= st0.frames.push(EFrameV::Loop(ev, bodyv)));
                    assert(step_cmd(st0, selfv) == StepV::Running(MStateV { t: turtle@, frames: frames_v(stack@) }));
                }
                Ok(())
            },
            Command::To(name, params, body) => {
                proof {
                    lemma_vec_dv(body);
                    assert(selfv == CmdV::To(name@, crate::ast::exprs_dv(params@), cmds_dv(body@)));
                }
                let names = match eval_texts(turtle, &params) {
                    Err(er) => {
                        return Err(er);
                    },
                    Ok(names) => names,
                };
                let ghost namesv = names.deep_view();
                let p = Procedure { name, args: names, commands: body };
                proof {
                    assert(p.pv() =~~= ProcV {
                        name: p.name@,
                        params: namesv,
                        body: cmds_dv(p.commands@),
                    });
                }
                turtle.define_procedure(p);
                proof {
                    assert(step_cmd(st0, selfv) == StepV::Running(MStateV { t: turtle@, frames: frames_v(stack@) }));
                }
                Ok(())
            },
            Command::Procedure(name, args) => {
                let ix = match turtle.lookup_procedure(name.as_str()) {
                    None => {
                        return Err(LogoError::ProcedureNotFound { name });
                    },
                    Some(ix) => ix,
                };
                proof {
                    assert(st0.t.procs[ix as int] == turtle.procedures@[ix as int].pv());
                }
                let expected = turtle.procedures[ix].args.len();
                if args.len() != expected {
                    return Err(
                        LogoError::ProcedureArityMismatch {
                            name,
                            received: args.len(),
                            expected,
                        },
                    );
                }
                let params = clone_strings(&turtle.procedures[ix].args);
                let pbody = duplicate_cmds(&turtle.procedures[ix].commands);
                let vals = match eval_texts(turtle, &args) {
                    Err(er) => {
                        return Err(er);
                    },
                    Ok(vals) => vals,
                };
                bind_params(turtle, &params, &vals);
                let ghost pbodyv = cmds_dv(pbody@);
                stack.push(EFrame::Block { cmds: pbody, at: 0 });
                proof {
                    assert(cmds_dv(pbody@).skip(0) =~= pbodyv);
                    assert(eframe_v(stack@.last()) == EFrameV::Block(pbodyv));
                    assert(frames_v(stack@) =~~= st0.frames.push(EFrameV::Block(pbodyv)));
                    assert(params.deep_view() =~= st0.t.procs[ix as int].params);
                    assert(turtle@ =~~= TurtleV {
                        vars: bind_all(
                            st0.t.vars,
                            st0.t.procs[ix as int].params,
                            vals.deep_view(),
                        ),
                        ..st0.t
                    });
                    assert(step_cmd(st0, selfv) == StepV::Running(MStateV { t: turtle@, frames: frames_v(stack@) }));
                }
                Ok(())
            },
        }
    }
}

/// The machine's pending work as mathematics.
pub open spec fn eframe_v(f: EFrame) -> EFrameV {
    match f {
        EFrame::Block { cmds, at } => EFrameV::Block(
            if at <= cmds@.len() {
                cmds_dv(cmds@).skip(at as int)
            } else {
                Seq::empty()
            },
        ),
        EFrame::Loop { cond, body } => EFrameV::Loop(cond.dv(), cmds_dv(body@)),
    }
}

pub open spec fn frames_v(s: Seq<EFrame>) -> Seq<EFrameV> {
    Seq::new(s.len(), |i: int| eframe_v(s[i]))
}

/// A unit of pending work of the running machine.
pub enum EFrame {
    Block { cmds: Vec<Command>, at: usize },
    Loop { cond: Expression, body: Vec<Command> },
}

/// A script run in progress: the environment together with the machine's
/// pending work, resumable a bounded number of steps at a time. A run whose
/// script never finishes (a `WHILE` that stays true) is driven by calling
/// `run` again whenever it reports that work remains.
pub struct Machine {
    pub turtle: Turtle,
    pub stack: Vec<EFrame>,
    pub init: Ghost<MStateV>,
    pub steps: Ghost<nat>,
}

impl Machine {
    /// The machine state this run began from.
    pub open spec fn initial(self) -> MStateV {
        self.init@
    }

    /// How many machine steps this run has taken so far.
    pub open spec fn steps(self) -> nat {
        self.steps@
    }

    /// A live run: the current state is exactly what the initial state
    /// reaches after the steps taken so far.
    pub open spec fn wf(self) -> bool {
        &&& turtle_wf(self.turtle@)
        &&& run_n(self.init@, self.steps@) == StepV::Running(
            MStateV { t: self.turtle@, frames: frames_v(self.stack@) },
        )
    }

    /// Whether every pending frame has been consumed.
    pub open spec fn spec_finished(self) -> bool {
        self.stack@.len() == 0
    }

    /// Whether the run has consumed all its pending work.
    pub fn finished(&self) -> (r: bool)
        ensures
            r == self.spec_finished(),
    {
        self.stack.len() == 0
    }

    /// A fresh run of `commands` against the given environment.
    pub fn new(turtle: Turtle, commands: &Vec<Command>) -> (m: Machine)
        requires
            turtle_wf(turtle@),
        ensures
            m.wf(),
            m.initial() == init_mstate(turtle@, cmds_dv(commands@)),
            m.steps() == 0,
    {
        let ghost initv = init_mstate(turtle@, cmds_dv(commands@));
        let mut stack: Vec<EFrame> = Vec::new();
        stack.push(EFrame::Block { cmds: duplicate_cmds(commands), at: 0 });
        let m = Machine { turtle, stack, init: Ghost(initv), steps: Ghost(0nat) };
        proof {
            assert(frames_v(m.stack@) =~~= seq![EFrameV::Block(cmds_dv(commands@))]);
            assert(MStateV { t: m.turtle@, frames: frames_v(m.stack@) } =~~= initv);
            assert(run_n(initv, 0) == StepV::Running(
                MStateV { t: m.turtle@, frames: frames_v(m.stack@) },
            ));
        }
        m
    }

    /// Walks the pending commands against the environment, in document
    /// order, depth-first into nested blocks, issuing draw requests to the
    /// canvas while the pen is down, for at most `budget` machine steps.
    /// `Ok(true)` reports a completed run; `Ok(false)` one with work still
    /// pending, after taking exactly `budget` further steps of the machine;
    /// every fatal fault ends the run at once.
    pub fn run(&mut self, image: &mut unsvg::Image, budget: u64) -> (r: Result<bool, LogoError>)
        requires
            old(self).wf(),
        ensures
            final(self).initial() == old(self).initial(),
            match r {
                Ok(true) => turtle_wf(final(self).turtle@) && (exists|n: nat|
                    run_n(old(self).initial(), n) == StepV::Done(
                        Ok::<TurtleV, ErrV>(final(self).turtle@),
                    )),
                Ok(false) => final(self).wf() && final(self).steps() == old(self).steps()
                    + budget,
                Err(e) => exists|n: nat|
                    run_n(old(self).initial(), n) == StepV::Done(Err::<TurtleV, ErrV>(e@)),
            },
    {
        let ghost init = self.init@;
        let ghost mut steps: nat = self.steps@;
        let mut fuel: u64 = budget;
        while fuel > 0
            invariant
                turtle_wf(self.turtle@),
                self.init@ == init,
                init == old(self).initial(),
                fuel <= budget,
                steps == old(self).steps() + (budget - fuel),
                run_n(init, steps) == StepV::Running(
                    MStateV { t: self.turtle@, frames: frames_v(self.stack@) },
                ),
            decreases fuel,
        {
            let ghost cur = MStateV { t: self.turtle@, frames: frames_v(self.stack@) };
            if self.stack.len() == 0 {
                proof {
                    assert(cur.frames.len() == 0);
                    assert(step(cur) == StepV::Done(Ok::<TurtleV, ErrV>(self.turtle@)));
                    lemma_run_snoc(init, steps);
                }
                self.steps = Ghost(steps);
                return Ok(true);
            }
            let fr = match self.stack.pop() {
                Some(fr) => fr,
                None => unreached(),
            };
            proof {
                assert(eframe_v(fr) == cur.frames.last());
                assert(frames_v(self.stack@) =~~= cur.frames.drop_last());
            }
            match fr {
                EFrame::Block { cmds, at } => {
                    if at >= cmds.len() {
                        proof {
                            assert(cur.frames.last() matches EFrameV::Block(s) && s.len() == 0);
                            assert(step(cur) == StepV::Running(
                                MStateV { t: self.turtle@, frames: frames_v(self.stack@) },
                            ));
                            lemma_run_snoc(init, steps);
                            steps = steps + 1;
                        }
                    } else {
                        let ghost cmdsv = cmds_dv(cmds@);
                        let ghost restv = cmdsv.skip(at as int);
                        let c = (&cmds[at]).duplicate();
                        self.stack.push(EFrame::Block { cmds, at: at + 1 });
                        let ghost mid = MStateV {
                            t: self.turtle@,
                            frames: frames_v(self.stack@),
                        };
                        proof {
                            assert(eframe_v(self.stack@.last()) == EFrameV::Block(
                                cmdsv.skip(at as int + 1),
                            ));
                            assert(restv.skip(1) =~= cmdsv.skip(at as int + 1));
                            assert(mid.frames =~~= cur.frames.update(
                                cur.frames.len() - 1,
                                EFrameV::Block(restv.skip(1)),
                            ));
                            assert(c.dv() == restv[0]);
                            assert(step(cur) == step_cmd(mid, c.dv()));
                        }
                        match c.execute(&mut self.turtle, &mut self.stack, image) {
                            Err(e) => {
                                proof {
                                    assert(step(cur) == StepV::Done(Err::<TurtleV, ErrV>(e@)));
                                    lemma_run_snoc(init, steps);
                                }
                                self.steps = Ghost(steps);
                                return Err(e);
                            },
                            Ok(_) => {
                                proof {
                                    assert(step(cur) == StepV::Running(
                                        MStateV {
                                            t: self.turtle@,
                                            frames: frames_v(self.stack@),
                                        },
                                    ));
                                    lemma_run_snoc(init, steps);
                                    steps = steps + 1;
                                }
                            },
                        }
                    }
                },
                EFrame::Loop { cond, body } => {
                    let v = match evaluate_expression(&self.turtle, &cond) {
                        Err(e) => {
                            proof {
                                assert(step(cur) == StepV::Done(Err::<TurtleV, ErrV>(e@)));
                                lemma_run_snoc(init, steps);
                            }
                            self.steps = Ghost(steps);
                            return Err(e);
                        },
                        Ok(v) => v,
                    };
                    if value_truthy(&v) {
                        let b2 = duplicate_cmds(&body);
                        let ghost bodyv = cmds_dv(body@);
                        self.stack.push(EFrame::Loop { cond, body });
                        self.stack.push(EFrame::Block { cmds: b2, at: 0 });
                        proof {
                            assert(frames_v(self.stack@) =~~= cur.frames.push(
                                EFrameV::Block(bodyv),
                            ));
                            assert(step(cur) == StepV::Running(
                                MStateV { t: self.turtle@, frames: frames_v(self.stack@) },
                            ));
                            lemma_run_snoc(init, steps);
                            steps = steps + 1;
                        }
                    } else {
                        proof {
                            assert(step(cur) == StepV::Running(
                                MStateV { t: self.turtle@, frames: frames_v(self.stack@) },
                            ));
                            lemma_run_snoc(init, steps);
                            steps = steps + 1;
                        }
                    }
                },
            }
            fuel = fuel - 1;
        }
        self.steps = Ghost(steps);
        Ok(false)
    }
}

/// Walks a command sequence against the environment for at most `limit`
/// machine steps: `Ok(true)` reports a completed run, `Ok(false)` one whose
/// remaining work was abandoned, with the turtle exactly where `limit`
/// steps of the machine leave it. The limit is the caller's: a caller that
/// must run a script to its end keeps a `Machine` and calls `run` until it
/// reports completion.
pub fn execute_commands(
    turtle: &mut Turtle,
    commands: &Vec<Command>,
    image: &mut unsvg::Image,
    limit: u64,
) -> (r: Result<bool, LogoError>)
    requires
        turtle_wf(old(turtle)@),
    ensures
        match r {
            Ok(true) => turtle_wf(final(turtle)@) && (exists|n: nat|
                run_n(init_mstate(old(turtle)@, cmds_dv(commands@)), n) == StepV::Done(
                    Ok::<TurtleV, ErrV>(final(turtle)@),
                )),
            Ok(false) => exists|fs: Seq<EFrameV>|
                run_n(init_mstate(old(turtle)@, cmds_dv(commands@)), limit as nat)
                    == StepV::Running(MStateV { t: final(turtle)@, frames: fs }),
            Err(e) => exists|n: nat|
                run_n(init_mstate(old(turtle)@, cmds_dv(commands@)), n) == StepV::Done(
                    Err::<TurtleV, ErrV>(e@),
                ),
        },
{
    let mut held = Turtle::new(1, 1);
    core::mem::swap(turtle, &mut held);
    let mut m = Machine::new(held, commands);
    let r = m.run(image, limit);
    core::mem::swap(turtle, &mut m.turtle);
    proof {
        match r {
            Ok(done) => {
                if !done {
                    assert(m.steps@ == limit as nat);
                    assert(run_n(init_mstate(old(turtle)@, cmds_dv(commands@)), limit as nat)
                        == StepV::Running(MStateV { t: turtle@, frames: frames_v(m.stack@) }));
                }
            },
            Err(_) => {},
        }
    }
    r
}

/// The environment a fresh run begins with: turtle at the canvas center,
/// pen up, the default color, heading `0`, empty tables.
pub open spec fn start_turtle(width: u32, height: u32) -> TurtleV {
    TurtleV {
        pen_down: false,
        color: crate::turtle::DEFAULT_COLOR as int,
        heading: 0,
        x: width as int / 2,
        y: height as int / 2,
        vars: Seq::empty(),
        procs: Seq::empty(),
    }
}

/// Parses a script and prepares its run: the canvas of the given size and
/// a machine holding the parsed commands and a fresh environment. Faults
/// in the script's text are reported here; the run itself is the caller's
/// to drive.
pub fn start(source: &str, width: u32, height: u32) -> (r: Result<(Machine, unsvg::Image),
    LogoError>)
    requires
        1 <= width <= 0x7fff_ffff,
        1 <= height <= 0x7fff_ffff,
    ensures
        match r {
            Ok(p) => crate::parser::spec_parse_source(source@) is Ok && p.0.wf() && p.0.initial()
                == init_mstate(
                start_turtle(width, height),
                crate::parser::spec_parse_source(source@)->Ok_0,
            ),
            Err(e) => crate::parser::spec_parse_source(source@) == Err::<Seq<CmdV>, ErrV>(e@),
        },
{
    let cmds = match crate::parser::parse_commands(source) {
        Err(e) => {
            return Err(e);
        },
        Ok(c) => c,
    };
    let image = crate::canvas::new_image(width, height);
    let t = Turtle::new(width, height);
    proof {
        assert(t@ =~~= start_turtle(width, height));
    }
    let m = Machine::new(t, &cmds);
    Ok((m, image))
}

/// Once done, the machine stays done with the same result.
#[verifier::rlimit(80)]
#[verifier::spinoff_prover]
pub proof fn lemma_run_done(st: MStateV, n: nat, m: nat)
    requires
        n <= m,
        run_n(st, n) is Done,
    ensures
        run_n(st, m) == run_n(st, n),
    decreases n,
{
    if n > 0 {
        match step(st) {
            StepV::Done(r) => {},
            StepV::Running(s2) => {
                lemma_run_done(s2, (n - 1) as nat, (m - 1) as nat);
            },
        }
    }
}

/// The execution result is a function of the initial state alone: two step
/// counts that both finish the machine report the same outcome.
pub proof fn lemma_run_result_unique(st: MStateV, n: nat, m: nat, r1: Result<TurtleV, ErrV>, r2: Result<TurtleV, ErrV>)
    requires
        run_n(st, n) == StepV::Done(r1),
        run_n(st, m) == StepV::Done(r2),
    ensures
        r1 == r2,
{
    if n <= m {
        lemma_run_done(st, n, m);
    } else {
        lemma_run_done(st, m, n);
    }
}

} // verus!
