//! Evaluated values and their textual coercions.
//!
//! Every value the interpreter computes is carried as one of integer,
//! boolean or text, and converts to the other shapes exactly as its
//! canonical text would: integer meaning by parsing, boolean meaning only
//! from the two boolean words, truthiness from the text itself.

use vstd::prelude::*;
use crate::num::{dec_int, int_to_string, parse_i32, spec_parse_i32};
use crate::text::str_eq;

verus! {

/// A value produced by expression evaluation.
#[derive(Debug, PartialEq)]
pub enum Value {
    Int(i32),
    Bool(bool),
    Text(String),
}

/// The mathematical view of a `Value`.
pub enum ValueV {
    Int(int),
    Bool(bool),
    Text(Seq<char>),
}

impl View for Value {
    type V = ValueV;

    open spec fn view(&self) -> ValueV {
        match self {
            Value::Int(i) => ValueV::Int(*i as int),
            Value::Bool(b) => ValueV::Bool(*b),
            Value::Text(s) => ValueV::Text(s@),
        }
    }
}

/// The characters of the word `true`.
pub open spec fn true_chars() -> Seq<char> {
    seq!['t', 'r', 'u', 'e']
}

/// The characters of the word `false`.
pub open spec fn false_chars() -> Seq<char> {
    seq!['f', 'a', 'l', 's', 'e']
}

/// The canonical text of a value: decimal for integers, the boolean words
/// for booleans, the text itself otherwise.
pub open spec fn text_of(v: ValueV) -> Seq<char> {
    match v {
        ValueV::Int(i) => dec_int(i),
        ValueV::Bool(b) => if b {
            true_chars()
        } else {
            false_chars()
        },
        ValueV::Text(s) => s,
    }
}

/// The machine-integer meaning of a value, if it has one.
pub open spec fn int_of(v: ValueV) -> Option<int> {
    match v {
        ValueV::Int(i) => Some(i),
        ValueV::Bool(_) => None,
        ValueV::Text(s) => spec_parse_i32(s),
    }
}

/// The boolean meaning of a value, if it has one.
pub open spec fn bool_of(v: ValueV) -> Option<bool> {
    match v {
        ValueV::Int(_) => None,
        ValueV::Bool(b) => Some(b),
        ValueV::Text(s) => if s == true_chars() {
            Some(true)
        } else if s == false_chars() {
            Some(false)
        } else {
            None
        },
    }
}

/// A condition holds unless its text is `0` or `false`.
pub open spec fn truthy(v: ValueV) -> bool {
    text_of(v) != seq!['0'] && text_of(v) != false_chars()
}

/// The canonical text of a value.
pub fn value_text(v: &Value) -> (r: String)
    ensures
        r@ == text_of(v@),
{
    match v {
        Value::Int(i) => int_to_string(*i),
        Value::Bool(b) => {
            if *b {
                proof {
                    reveal_strlit("true");
                    assert("true"@ =~= true_chars());
                }
                "true".to_owned()
            } else {
                proof {
                    reveal_strlit("false");
                    assert("false"@ =~= false_chars());
                }
                "false".to_owned()
            }
        },
        Value::Text(s) => s.clone(),
    }
}

/// The machine-integer meaning of a value, or `None`.
pub fn value_int(v: &Value) -> (r: Option<i32>)
    ensures
        match r {
            Some(i) => int_of(v@) == Some(i as int),
            None => int_of(v@) is None,
        },
{
    match v {
        Value::Int(i) => Some(*i),
        Value::Bool(_) => None,
        Value::Text(s) => parse_i32(s.as_str()),
    }
}

/// The boolean meaning of a value, or `None`.
pub fn value_bool(v: &Value) -> (r: Option<bool>)
    ensures
        match r {
            Some(b) => bool_of(v@) == Some(b),
            None => bool_of(v@) is None,
        },
{
    match v {
        Value::Int(_) => None,
        Value::Bool(b) => Some(*b),
        Value::Text(s) => {
            proof {
                reveal_strlit("true");
                reveal_strlit("false");
                assert("true"@ =~= true_chars());
                assert("false"@ =~= false_chars());
            }
            if str_eq(s.as_str(), "true") {
                Some(true)
            } else if str_eq(s.as_str(), "false") {
                Some(false)
            } else {
                None
            }
        },
    }
}

/// Whether a value passes as a true condition.
pub fn value_truthy(v: &Value) -> (r: bool)
    ensures
        r == truthy(v@),
{
    proof {
        reveal_strlit("0");
        reveal_strlit("false");
        assert("0"@ =~= seq!['0']);
        assert("false"@ =~= false_chars());
    }
    let t = value_text(v);
    !(str_eq(t.as_str(), "0") || str_eq(t.as_str(), "false"))
}

/// The absolute value.
pub open spec fn abs_int(a: int) -> int {
    if a < 0 {
        -a
    } else {
        a
    }
}

/// Division truncated toward zero, as machine division performs it.
pub open spec fn trunc_div(a: int, b: int) -> int {
    if (a < 0) != (b < 0) {
        -(abs_int(a) / abs_int(b))
    } else {
        abs_int(a) / abs_int(b)
    }
}

/// Machine division of two integers, truncated toward zero.
pub fn div_i32(a: i32, b: i32) -> (r: i32)
    requires
        b != 0,
        !(a == -0x8000_0000i32 && b == -1i32),
    ensures
        r as int == trunc_div(a as int, b as int),
{
    let ua: u64 = if a < 0 {
        (-(a as i64)) as u64
    } else {
        a as u64
    };
    let ub: u64 = if b < 0 {
        (-(b as i64)) as u64
    } else {
        b as u64
    };
    let q: u64 = ua / ub;
    proof {
        assert(ua == abs_int(a as int));
        assert(ub == abs_int(b as int));
        assert(q == abs_int(a as int) / abs_int(b as int));
        assert(q <= ua) by (nonlinear_arith)
            requires q == ua / ub, ub >= 1, ua >= 0;
    }
    if (a < 0) != (b < 0) {
        proof {
            assert(q <= 0x8000_0000u64);
        }
        (-(q as i64)) as i32
    } else {
        proof {
            if a < 0 {
                assert(b < 0);
                if a == -0x8000_0000i32 {
                    assert(b != -1i32);
                    assert(ub >= 2);
                    assert(q <= ua / 2) by (nonlinear_arith)
                        requires q == ua / ub, ub >= 2, ua >= 0;
                } else {
                    assert(ua <= 0x7fff_ffffu64);
                }
            } else {
                assert(q <= 0x7fff_ffffu64);
            }
        }
        q as i32
    }
}

} // verus!
