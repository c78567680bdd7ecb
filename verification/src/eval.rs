//! Expression evaluation against the live environment.
//!
//! Operands are evaluated left to right, and each operand is coerced to the
//! shape its operator requires before the right operand is touched, so that
//! a fatal fault in the left operand is always the one reported. Comparison
//! and logical operators yield booleans, arithmetic operators yield machine
//! integers, and a leaf resolves to literal text, a variable's text, or a
//! live state query.

use vstd::prelude::*;
use crate::ast::{ExprV, Expression};
use crate::errors::{ErrV, LogoError};
use crate::text::{color_kw, eq_upper, heading_kw, token_matches, xcor_kw, ycor_kw};
use crate::turtle::{Turtle, TurtleV, lookup_var, turtle_wf};
use crate::value::{
    Value, ValueV, bool_of, div_i32, int_of, text_of, trunc_div, value_bool, value_int, value_text,
};

verus! {

/// The view of an evaluation outcome.
pub open spec fn eval_res_dv(r: Result<Value, LogoError>) -> Result<ValueV, ErrV> {
    match r {
        Ok(v) => Ok(v@),
        Err(e) => Err(e@),
    }
}

/// What a leaf token denotes against the environment: a quoted literal's
/// text, a variable's text (fatal when undefined), a live state reading,
/// or a fatal invalid-value fault.
pub open spec fn spec_eval_leaf(t: TurtleV, tok: Seq<char>) -> Result<ValueV, ErrV> {
    if tok.len() > 0 && tok[0] == '"' {
        Ok(ValueV::Text(tok.skip(1)))
    } else if tok.len() > 0 && tok[0] == ':' {
        match lookup_var(t.vars, tok.skip(1)) {
            Some(v) => Ok(ValueV::Text(v)),
            None => Err(ErrV::VariableNotFound { name: tok.skip(1) }),
        }
    } else if eq_upper(tok, xcor_kw()) {
        Ok(ValueV::Int(t.x))
    } else if eq_upper(tok, ycor_kw()) {
        Ok(ValueV::Int(t.y))
    } else if eq_upper(tok, heading_kw()) {
        Ok(ValueV::Int(t.heading))
    } else if eq_upper(tok, color_kw()) {
        Ok(ValueV::Int(t.color))
    } else {
        Err(ErrV::InvalidValue { token: tok })
    }
}

/// The integer meaning an operand must supply, or the fatal fault.
pub open spec fn spec_as_int(v: ValueV) -> Result<int, ErrV> {
    match int_of(v) {
        Some(i) => Ok(i),
        None => Err(ErrV::UnparsableValue { token: text_of(v) }),
    }
}

/// The boolean meaning an operand must supply, or the fatal fault.
pub open spec fn spec_as_bool(v: ValueV) -> Result<bool, ErrV> {
    match bool_of(v) {
        Some(b) => Ok(b),
        None => Err(ErrV::UnparsableValue { token: text_of(v) }),
    }
}

/// An arithmetic result, fatal when it leaves the machine integer range.
pub open spec fn spec_arith(n: int) -> Result<ValueV, ErrV> {
    if -0x8000_0000 <= n <= 0x7fff_ffff {
        Ok(ValueV::Int(n))
    } else {
        Err(ErrV::ArithmeticOverflow)
    }
}

/// What an expression evaluates to against the environment, or the first
/// fatal fault met in evaluation order.
pub open spec fn spec_eval(t: TurtleV, e: ExprV) -> Result<ValueV, ErrV>
    decreases e, 0int,
{
    match e {
        ExprV::Eq(l, r) => match spec_eval(t, *l) {
            Err(er) => Err(er),
            Ok(lv) => match spec_eval(t, *r) {
                Err(er) => Err(er),
                Ok(rv) => Ok(ValueV::Bool(text_of(lv) == text_of(rv))),
            },
        },
        ExprV::Ne(l, r) => match spec_eval(t, *l) {
            Err(er) => Err(er),
            Ok(lv) => match spec_eval(t, *r) {
                Err(er) => Err(er),
                Ok(rv) => Ok(ValueV::Bool(text_of(lv) != text_of(rv))),
            },
        },
        ExprV::Gt(l, r) => match spec_eval_int(t, *l) {
            Err(er) => Err(er),
            Ok(li) => match spec_eval_int(t, *r) {
                Err(er) => Err(er),
                Ok(ri) => Ok(ValueV::Bool(li > ri)),
            },
        },
        ExprV::Lt(l, r) => match spec_eval_int(t, *l) {
            Err(er) => Err(er),
            Ok(li) => match spec_eval_int(t, *r) {
                Err(er) => Err(er),
                Ok(ri) => Ok(ValueV::Bool(li < ri)),
            },
        },
        ExprV::And(l, r) => match spec_eval_bool(t, *l) {
            Err(er) => Err(er),
            Ok(lb) => match spec_eval_bool(t, *r) {
                Err(er) => Err(er),
                Ok(rb) => Ok(ValueV::Bool(lb && rb)),
            },
        },
        ExprV::Or(l, r) => match spec_eval_bool(t, *l) {
            Err(er) => Err(er),
            Ok(lb) => match spec_eval_bool(t, *r) {
                Err(er) => Err(er),
                Ok(rb) => Ok(ValueV::Bool(lb || rb)),
            },
        },
        ExprV::Add(l, r) => match spec_eval_int(t, *l) {
            Err(er) => Err(er),
            Ok(li) => match spec_eval_int(t, *r) {
                Err(er) => Err(er),
                Ok(ri) => spec_arith(li + ri),
            },
        },
        ExprV::Subtract(l, r) => match spec_eval_int(t, *l) {
            Err(er) => Err(er),
            Ok(li) => match spec_eval_int(t, *r) {
                Err(er) => Err(er),
                Ok(ri) => spec_arith(li - ri),
            },
        },
        ExprV::Multiply(l, r) => match spec_eval_int(t, *l) {
            Err(er) => Err(er),
            Ok(li) => match spec_eval_int(t, *r) {
                Err(er) => Err(er),
                Ok(ri) => spec_arith(li * ri),
            },
        },
        ExprV::Divide(l, r) => match spec_eval_int(t, *l) {
            Err(er) => Err(er),
            Ok(li) => match spec_eval_int(t, *r) {
                Err(er) => Err(er),
                Ok(ri) => if ri == 0 {
                    Err(ErrV::DivisionByZero)
                } else if li == -0x8000_0000 && ri == -1 {
                    Err(ErrV::ArithmeticOverflow)
                } else {
                    Ok(ValueV::Int(trunc_div(li, ri)))
                },
            },
        },
        ExprV::Value(tok) => spec_eval_leaf(t, tok),
    }
}

/// An operand evaluated and read as an integer.
pub open spec fn spec_eval_int(t: TurtleV, e: ExprV) -> Result<int, ErrV>
    decreases e, 1int,
{
    match spec_eval(t, e) {
        Err(er) => Err(er),
        Ok(v) => spec_as_int(v),
    }
}

/// An operand evaluated and read as a boolean.
pub open spec fn spec_eval_bool(t: TurtleV, e: ExprV) -> Result<bool, ErrV>
    decreases e, 1int,
{
    match spec_eval(t, e) {
        Err(er) => Err(er),
        Ok(v) => spec_as_bool(v),
    }
}

/// Reads an evaluated operand as a machine integer, or reports the fatal
/// unparsable-value fault.
fn as_int(v: &Value) -> (r: Result<i32, LogoError>)
    ensures
        match r {
            Ok(i) => spec_as_int(v@) == Ok::<int, ErrV>(i as int),
            Err(e) => spec_as_int(v@) == Err::<int, ErrV>(e@),
        },
{
    match value_int(v) {
        Some(i) => Ok(i),
        None => Err(LogoError::UnparsableValue { token: value_text(v) }),
    }
}

/// Reads an evaluated operand as a boolean, or reports the fatal
/// unparsable-value fault.
fn as_bool(v: &Value) -> (r: Result<bool, LogoError>)
    ensures
        match r {
            Ok(b) => spec_as_bool(v@) == Ok::<bool, ErrV>(b),
            Err(e) => spec_as_bool(v@) == Err::<bool, ErrV>(e@),
        },
{
    match value_bool(v) {
        Some(b) => Ok(b),
        None => Err(LogoError::UnparsableValue { token: value_text(v) }),
    }
}

/// Evaluates an operand and reads it as a machine integer.
pub fn eval_int(t: &Turtle, e: &Expression) -> (r: Result<i32, LogoError>)
    requires
        turtle_wf(t@),
    ensures
        match r {
            Ok(i) => spec_eval_int(t@, e.dv()) == Ok::<int, ErrV>(i as int),
            Err(er) => spec_eval_int(t@, e.dv()) == Err::<int, ErrV>(er@),
        },
    decreases e, 1int,
{
    match evaluate_expression(t, e) {
        Err(er) => Err(er),
        Ok(v) => as_int(&v),
    }
}

/// Evaluates an operand and reads it as a boolean.
fn eval_bool(t: &Turtle, e: &Expression) -> (r: Result<bool, LogoError>)
    requires
        turtle_wf(t@),
    ensures
        match r {
            Ok(b) => spec_eval_bool(t@, e.dv()) == Ok::<bool, ErrV>(b),
            Err(er) => spec_eval_bool(t@, e.dv()) == Err::<bool, ErrV>(er@),
        },
    decreases e, 1int,
{
    match evaluate_expression(t, e) {
        Err(er) => Err(er),
        Ok(v) => as_bool(&v),
    }
}

/// Evaluates an expression against the environment, returning its value or
/// the first fatal fault in evaluation order.
pub fn evaluate_expression(t: &Turtle, e: &Expression) -> (r: Result<Value, LogoError>)
    requires
        turtle_wf(t@),
    ensures
        eval_res_dv(r) == spec_eval(t@, e.dv()),
    decreases e, 0int,
{
    match e {
        Expression::Eq(l, rr) => {
            let lv = match evaluate_expression(t, &**l) {
                Err(er) => {
                    return Err(er);
                },
                Ok(v) => v,
            };
            let rv = match evaluate_expression(t, &**rr) {
                Err(er) => {
                    return Err(er);
                },
                Ok(v) => v,
            };
            let lt = value_text(&lv);
            let rt = value_text(&rv);
            Ok(Value::Bool(crate::text::str_eq(lt.as_str(), rt.as_str())))
        },
        Expression::Ne(l, rr) => {
            let lv = match evaluate_expression(t, &**l) {
                Err(er) => {
                    return Err(er);
                },
                Ok(v) => v,
            };
            let rv = match evaluate_expression(t, &**rr) {
                Err(er) => {
                    return Err(er);
                },
                Ok(v) => v,
            };
            let lt = value_text(&lv);
            let rt = value_text(&rv);
            Ok(Value::Bool(!crate::text::str_eq(lt.as_str(), rt.as_str())))
        },
        Expression::Gt(l, rr) => {
            let li = match eval_int(t, &**l) {
                Err(er) => {
                    return Err(er);
                },
                Ok(i) => i,
            };
            let ri = match eval_int(t, &**rr) {
                Err(er) => {
                    return Err(er);
                },
                Ok(i) => i,
            };
            Ok(Value::Bool(li > ri))
        },
        Expression::Lt(l, rr) => {
            let li = match eval_int(t, &**l) {
                Err(er) => {
                    return Err(er);
                },
                Ok(i) => i,
            };
            let ri = match eval_int(t, &**rr) {
                Err(er) => {
                    return Err(er);
                },
                Ok(i) => i,
            };
            Ok(Value::Bool(li < ri))
        },
        Expression::And(l, rr) => {
            let lb = match eval_bool(t, &**l) {
                Err(er) => {
                    return Err(er);
                },
                Ok(b) => b,
            };
            let rb = match eval_bool(t, &**rr) {
                Err(er) => {
                    return Err(er);
                },
                Ok(b) => b,
            };
            Ok(Value::Bool(lb && rb))
        },
        Expression::Or(l, rr) => {
            let lb = match eval_bool(t, &**l) {
                Err(er) => {
                    return Err(er);
                },
                Ok(b) => b,
            };
            let rb = match eval_bool(t, &**rr) {
                Err(er) => {
                    return Err(er);
                },
                Ok(b) => b,
            };
            Ok(Value::Bool(lb || rb))
        },
        Expression::Add(l, rr) => {
            let li = match eval_int(t, &**l) {
                Err(er) => {
                    return Err(er);
                },
                Ok(i) => i,
            };
            let ri = match eval_int(t, &**rr) {
                Err(er) => {
                    return Err(er);
                },
                Ok(i) => i,
            };
            let sum: i64 = li as i64 + ri as i64;
            if sum < -0x8000_0000i64 || sum > 0x7fff_ffffi64 {
                Err(LogoError::ArithmeticOverflow)
            } else {
                Ok(Value::Int(sum as i32))
            }
        },
        Expression::Subtract(l, rr) => {
            let li = match eval_int(t, &**l) {
                Err(er) => {
                    return Err(er);
                },
                Ok(i) => i,
            };
            let ri = match eval_int(t, &**rr) {
                Err(er) => {
                    return Err(er);
                },
                Ok(i) => i,
            };
            let diff: i64 = li as i64 - ri as i64;
            if diff < -0x8000_0000i64 || diff > 0x7fff_ffffi64 {
                Err(LogoError::ArithmeticOverflow)
            } else {
                Ok(Value::Int(diff as i32))
            }
        },
        Expression::Multiply(l, rr) => {
            let li = match eval_int(t, &**l) {
                Err(er) => {
                    return Err(er);
                },
                Ok(i) => i,
            };
            let ri = match eval_int(t, &**rr) {
                Err(er) => {
                    return Err(er);
                },
                Ok(i) => i,
            };
            proof {
                assert((li as i64) * (ri as i64) <= 0x4000_0000_0000_0000i64 && (li as i64) * (
                ri as i64) >= -0x4000_0000_0000_0000i64) by (nonlinear_arith)
                    requires
                        -0x8000_0000i64 <= li as i64 <= 0x7fff_ffffi64,
                        -0x8000_0000i64 <= ri as i64 <= 0x7fff_ffffi64;
            }
            let prod: i64 = li as i64 * ri as i64;
            if prod < -0x8000_0000i64 || prod > 0x7fff_ffffi64 {
                Err(LogoError::ArithmeticOverflow)
            } else {
                Ok(Value::Int(prod as i32))
            }
        },
        Expression::Divide(l, rr) => {
            let li = match eval_int(t, &**l) {
                Err(er) => {
                    return Err(er);
                },
                Ok(i) => i,
            };
            let ri = match eval_int(t, &**rr) {
                Err(er) => {
                    return Err(er);
                },
                Ok(i) => i,
            };
            if ri == 0 {
                Err(LogoError::DivisionByZero)
            } else if li == -0x8000_0000i32 && ri == -1i32 {
                Err(LogoError::ArithmeticOverflow)
            } else {
                Ok(Value::Int(div_i32(li, ri)))
            }
        },
        Expression::Value(tok) => eval_leaf(t, tok.as_str()),
    }
}

/// Resolves a leaf token against the environment.
fn eval_leaf(t: &Turtle, tok: &str) -> (r: Result<Value, LogoError>)
    requires
        turtle_wf(t@),
    ensures
        eval_res_dv(r) == spec_eval_leaf(t@, tok@),
{
    let n = tok.unicode_len();
    if n > 0 {
        let c = tok.get_char(0);
        if c == '"' {
            let rest = tok.substring_char(1, n).to_owned();
            proof {
                assert(rest@ =~= tok@.skip(1));
            }
            return Ok(Value::Text(rest));
        }
        if c == ':' {
            let name = tok.substring_char(1, n);
            proof {
                assert(name@ =~= tok@.skip(1));
            }
            return match t.read_variable(name) {
                Some(v) => Ok(Value::Text(v)),
                None => Err(LogoError::VariableNotFound { name: name.to_owned() }),
            };
        }
    }
    proof {
        reveal_strlit("XCOR");
        reveal_strlit("YCOR");
        reveal_strlit("HEADING");
        reveal_strlit("COLOR");
        assert("XCOR"@ =~= xcor_kw());
        assert("YCOR"@ =~= ycor_kw());
        assert("HEADING"@ =~= heading_kw());
        assert("COLOR"@ =~= color_kw());
    }
    if token_matches(tok, "XCOR") {
        Ok(Value::Int(t.pos_x))
    } else if token_matches(tok, "YCOR") {
        Ok(Value::Int(t.pos_y))
    } else if token_matches(tok, "HEADING") {
        Ok(Value::Int(t.heading))
    } else if token_matches(tok, "COLOR") {
        Ok(Value::Int(t.color as i32))
    } else {
        Err(LogoError::InvalidValue { token: tok.to_owned() })
    }
}

} // verus!
