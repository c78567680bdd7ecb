//! The command tree and expression tree of a parsed script, together with
//! their mathematical views.
//!
//! Expressions use a prefix-operator grammar: every binary operator owns
//! exactly two operand sub-expressions, and a leaf carries the raw token text
//! that is interpreted at evaluation time.

use vstd::prelude::*;

verus! {

/// An expression tree node. A `Value` leaf holds raw token text: a quoted
/// literal (`"abc`), a variable reference (`:name`) or a state query keyword.
#[derive(Debug, PartialEq)]
pub enum Expression {
    Eq(Box<Expression>, Box<Expression>),
    Ne(Box<Expression>, Box<Expression>),
    Gt(Box<Expression>, Box<Expression>),
    Lt(Box<Expression>, Box<Expression>),
    And(Box<Expression>, Box<Expression>),
    Or(Box<Expression>, Box<Expression>),
    Add(Box<Expression>, Box<Expression>),
    Subtract(Box<Expression>, Box<Expression>),
    Multiply(Box<Expression>, Box<Expression>),
    Divide(Box<Expression>, Box<Expression>),
    Value(String),
}

/// One statement of a script. Block commands own their fully resolved body;
/// the tree is strictly parent-owned.
#[derive(Debug, PartialEq)]
pub enum Command {
    PenUp,
    PenDown,
    Forward(Expression),
    Back(Expression),
    Left(Expression),
    Right(Expression),
    SetPenColor(Expression),
    Turn(Expression),
    SetHeading(Expression),
    SetX(Expression),
    SetY(Expression),
    Make(Expression, Expression),
    AddAssign(Expression, Expression),
    If(Expression, Vec<Command>),
    While(Expression, Vec<Command>),
    To(String, Vec<Expression>, Vec<Command>),
    Procedure(String, Vec<Expression>),
}

/// A variable binding: all values are stored as text.
#[derive(Debug, Clone, PartialEq)]
pub struct Variable {
    pub name: String,
    pub value: String,
}

/// A recorded procedure definition: parameter names and a body.
#[derive(Debug, PartialEq)]
pub struct Procedure {
    pub name: String,
    pub args: Vec<String>,
    pub commands: Vec<Command>,
}

/// The mathematical view of an `Expression`.
pub enum ExprV {
    Eq(Box<ExprV>, Box<ExprV>),
    Ne(Box<ExprV>, Box<ExprV>),
    Gt(Box<ExprV>, Box<ExprV>),
    Lt(Box<ExprV>, Box<ExprV>),
    And(Box<ExprV>, Box<ExprV>),
    Or(Box<ExprV>, Box<ExprV>),
    Add(Box<ExprV>, Box<ExprV>),
    Subtract(Box<ExprV>, Box<ExprV>),
    Multiply(Box<ExprV>, Box<ExprV>),
    Divide(Box<ExprV>, Box<ExprV>),
    Value(Seq<char>),
}

/// The mathematical view of a `Command`.
pub enum CmdV {
    PenUp,
    PenDown,
    Forward(ExprV),
    Back(ExprV),
    Left(ExprV),
    Right(ExprV),
    SetPenColor(ExprV),
    Turn(ExprV),
    SetHeading(ExprV),
    SetX(ExprV),
    SetY(ExprV),
    Make(ExprV, ExprV),
    AddAssign(ExprV, ExprV),
    If(ExprV, Seq<CmdV>),
    While(ExprV, Seq<CmdV>),
    To(Seq<char>, Seq<ExprV>, Seq<CmdV>),
    Procedure(Seq<char>, Seq<ExprV>),
}

impl Expression {
    /// The expression as a mathematical tree over character sequences.
    pub open spec fn dv(self) -> ExprV
        decreases self,
    {
        match self {
            Expression::Eq(l, r) => ExprV::Eq(Box::new(l.dv()), Box::new(r.dv())),
            Expression::Ne(l, r) => ExprV::Ne(Box::new(l.dv()), Box::new(r.dv())),
            Expression::Gt(l, r) => ExprV::Gt(Box::new(l.dv()), Box::new(r.dv())),
            Expression::Lt(l, r) => ExprV::Lt(Box::new(l.dv()), Box::new(r.dv())),
            Expression::And(l, r) => ExprV::And(Box::new(l.dv()), Box::new(r.dv())),
            Expression::Or(l, r) => ExprV::Or(Box::new(l.dv()), Box::new(r.dv())),
            Expression::Add(l, r) => ExprV::Add(Box::new(l.dv()), Box::new(r.dv())),
            Expression::Subtract(l, r) => ExprV::Subtract(Box::new(l.dv()), Box::new(r.dv())),
            Expression::Multiply(l, r) => ExprV::Multiply(Box::new(l.dv()), Box::new(r.dv())),
            Expression::Divide(l, r) => ExprV::Divide(Box::new(l.dv()), Box::new(r.dv())),
            Expression::Value(s) => ExprV::Value(s@),
        }
    }
}

/// The views of a sequence of expressions, element by element.
pub open spec fn exprs_dv(s: Seq<Expression>) -> Seq<ExprV> {
    Seq::new(s.len(), |i: int| s[i].dv())
}

impl Command {
    /// The command as a mathematical tree over character sequences.
    pub open spec fn dv(self) -> CmdV
        decreases self, 0int,
    {
        match self {
            Command::PenUp => CmdV::PenUp,
            Command::PenDown => CmdV::PenDown,
            Command::Forward(e) => CmdV::Forward(e.dv()),
            Command::Back(e) => CmdV::Back(e.dv()),
            Command::Left(e) => CmdV::Left(e.dv()),
            Command::Right(e) => CmdV::Right(e.dv()),
            Command::SetPenColor(e) => CmdV::SetPenColor(e.dv()),
            Command::Turn(e) => CmdV::Turn(e.dv()),
            Command::SetHeading(e) => CmdV::SetHeading(e.dv()),
            Command::SetX(e) => CmdV::SetX(e.dv()),
            Command::SetY(e) => CmdV::SetY(e.dv()),
            Command::Make(n, v) => CmdV::Make(n.dv(), v.dv()),
            Command::AddAssign(n, v) => CmdV::AddAssign(n.dv(), v.dv()),
            Command::If(e, body) => CmdV::If(e.dv(), vec_dv(body, 0)),
            Command::While(e, body) => CmdV::While(e.dv(), vec_dv(body, 0)),
            Command::To(name, params, body) => CmdV::To(
                name@,
                exprs_dv(params@),
                vec_dv(body, 0),
            ),
            Command::Procedure(name, args) => CmdV::Procedure(name@, exprs_dv(args@)),
        }
    }
}

/// The views of the elements of `v` from index `i` on, built one element at a
/// time so that the recursion into the command tree is visibly well founded.
pub open spec fn vec_dv(v: Vec<Command>, i: int) -> Seq<CmdV>
    decreases v, v@.len() - i,
    via vec_dv_decreases
{
    if i < 0 || i >= v@.len() {
        Seq::empty()
    } else {
        seq![v[i].dv()] + vec_dv(v, i + 1)
    }
}

#[via_fn]
proof fn vec_dv_decreases(v: Vec<Command>, i: int) {
    broadcast use vstd::std_specs::vec::group_vec_axioms;

    if 0 <= i < v@.len() {
        assert(decreases_to!(v => v[i]));
    }
}

/// The views of a sequence of commands, element by element.
pub open spec fn cmds_dv(s: Seq<Command>) -> Seq<CmdV> {
    Seq::new(s.len(), |i: int| s[i].dv())
}

/// `vec_dv` agrees with `cmds_dv` on the tail of the vector from `i` on.
pub proof fn lemma_vec_dv_from(v: Vec<Command>, i: int)
    requires
        0 <= i <= v@.len(),
    ensures
        vec_dv(v, i) == cmds_dv(v@).skip(i),
    decreases v@.len() - i,
{
    if i == v@.len() {
        assert(vec_dv(v, i) =~= cmds_dv(v@).skip(i));
    } else {
        lemma_vec_dv_from(v, i + 1);
        assert(vec_dv(v, i) =~= cmds_dv(v@).skip(i));
    }
}

/// The element-wise view of a body vector is the view `Command::dv` gives it.
pub broadcast proof fn lemma_vec_dv(v: Vec<Command>)
    ensures
        #[trigger] vec_dv(v, 0) == cmds_dv(v@),
{
    lemma_vec_dv_from(v, 0);
    assert(cmds_dv(v@).skip(0) =~= cmds_dv(v@));
}

impl Expression {
    /// An owned copy of the expression tree with the same view.
    pub fn duplicate(&self) -> (r: Expression)
        ensures
            r.dv() == self.dv(),
        decreases self,
    {
        match self {
            Expression::Eq(l, r) => Expression::Eq(
                Box::new(l.duplicate()),
                Box::new(r.duplicate()),
            ),
            Expression::Ne(l, r) => Expression::Ne(
                Box::new(l.duplicate()),
                Box::new(r.duplicate()),
            ),
            Expression::Gt(l, r) => Expression::Gt(
                Box::new(l.duplicate()),
                Box::new(r.duplicate()),
            ),
            Expression::Lt(l, r) => Expression::Lt(
                Box::new(l.duplicate()),
                Box::new(r.duplicate()),
            ),
            Expression::And(l, r) => Expression::And(
                Box::new(l.duplicate()),
                Box::new(r.duplicate()),
            ),
            Expression::Or(l, r) => Expression::Or(
                Box::new(l.duplicate()),
                Box::new(r.duplicate()),
            ),
            Expression::Add(l, r) => Expression::Add(
                Box::new(l.duplicate()),
                Box::new(r.duplicate()),
            ),
            Expression::Subtract(l, r) => Expression::Subtract(
                Box::new(l.duplicate()),
                Box::new(r.duplicate()),
            ),
            Expression::Multiply(l, r) => Expression::Multiply(
                Box::new(l.duplicate()),
                Box::new(r.duplicate()),
            ),
            Expression::Divide(l, r) => Expression::Divide(
                Box::new(l.duplicate()),
                Box::new(r.duplicate()),
            ),
            Expression::Value(s) => Expression::Value(s.clone()),
        }
    }
}

/// An owned copy of a vector of expressions with the same element views.
pub fn duplicate_exprs(v: &Vec<Expression>) -> (r: Vec<Expression>)
    ensures
        exprs_dv(r@) == exprs_dv(v@),
        r@.len() == v@.len(),
{
    let mut out: Vec<Expression> = Vec::new();
    let mut j: usize = 0;
    while j < v.len()
        invariant
            j <= v@.len(),
            out@.len() == j,
            forall|k: int| 0 <= k < j ==> out@[k].dv() == v@[k].dv(),
        decreases v@.len() - j,
    {
        out.push(v[j].duplicate());
        j = j + 1;
    }
    assert(exprs_dv(out@) =~= exprs_dv(v@));
    out
}

impl Command {
    /// An owned copy of the command tree with the same view.
    pub fn duplicate(&self) -> (r: Command)
        ensures
            r.dv() == self.dv(),
        decreases self, 0int,
    {
        match self {
            Command::PenUp => Command::PenUp,
            Command::PenDown => Command::PenDown,
            Command::Forward(e) => Command::Forward(e.duplicate()),
            Command::Back(e) => Command::Back(e.duplicate()),
            Command::Left(e) => Command::Left(e.duplicate()),
            Command::Right(e) => Command::Right(e.duplicate()),
            Command::SetPenColor(e) => Command::SetPenColor(e.duplicate()),
            Command::Turn(e) => Command::Turn(e.duplicate()),
            Command::SetHeading(e) => Command::SetHeading(e.duplicate()),
            Command::SetX(e) => Command::SetX(e.duplicate()),
            Command::SetY(e) => Command::SetY(e.duplicate()),
            Command::Make(n, v) => Command::Make(n.duplicate(), v.duplicate()),
            Command::AddAssign(n, v) => Command::AddAssign(n.duplicate(), v.duplicate()),
            Command::If(e, body) => {
                let e2 = e.duplicate();
                let b2 = duplicate_cmds(body);
                proof {
                    lemma_vec_dv(*body);
                    lemma_vec_dv(b2);
                    assert(self.dv() == CmdV::If(e.dv(), vec_dv(*body, 0)));
                }
                Command::If(e2, b2)
            },
            Command::While(e, body) => {
                let e2 = e.duplicate();
                let b2 = duplicate_cmds(body);
                proof {
                    lemma_vec_dv(*body);
                    lemma_vec_dv(b2);
                    assert(self.dv() == CmdV::While(e.dv(), vec_dv(*body, 0)));
                }
                Command::While(e2, b2)
            },
            Command::To(name, params, body) => {
                let n2 = name.clone();
                let p2 = duplicate_exprs(params);
                let b2 = duplicate_cmds(body);
                proof {
                    lemma_vec_dv(*body);
                    lemma_vec_dv(b2);
                    assert(self.dv() == CmdV::To(name@, exprs_dv(params@), vec_dv(*body, 0)));
                }
                Command::To(n2, p2, b2)
            },
            Command::Procedure(name, args) => Command::Procedure(
                name.clone(),
                duplicate_exprs(args),
            ),
        }
    }
}

/// An owned copy of a vector of commands with the same element views.
pub fn duplicate_cmds(v: &Vec<Command>) -> (r: Vec<Command>)
    ensures
        cmds_dv(r@) == cmds_dv(v@),
        r@.len() == v@.len(),
    decreases v, 1int,
{
    broadcast use vstd::std_specs::vec::group_vec_axioms;

    let mut out: Vec<Command> = Vec::new();
    let mut j: usize = 0;
    while j < v.len()
        invariant
            j <= v@.len(),
            out@.len() == j,
            forall|k: int| 0 <= k < j ==> out@[k].dv() == v@[k].dv(),
        decreases v@.len() - j,
    {
        proof {
            assert(decreases_to!(v => v[j as int]));
        }
        let c = &v[j];
        out.push(c.duplicate());
        j = j + 1;
    }
    assert(cmds_dv(out@) =~= cmds_dv(v@));
    out
}

} // verus!
