//! The statement parser and expression grammar.
//!
//! Lines are tokenized and dispatched on their first word; fixed-arity
//! commands consume exactly their argument count from the remaining tokens,
//! block headers open a nested frame, and closer lines (`]`, `END`) close
//! the innermost open frame. Expressions use a pure prefix grammar: an
//! operator keyword is followed by its two operands.

use vstd::prelude::*;
use crate::ast::{CmdV, Command, ExprV, Expression, cmds_dv, exprs_dv, lemma_vec_dv, vec_dv};
use crate::errors::{ErrV, LogoError};
use crate::text::{
    eq_upper, is_valid_value, is_value_token, str_eq, tokenize, tokenize_line, token_matches,
};

verus! {

/// A binary operator of the expression grammar.
#[derive(Debug, PartialEq, Clone, Copy)]
pub enum BinOp {
    Eq,
    Ne,
    Gt,
    Lt,
    And,
    Or,
    Add,
    Subtract,
    Multiply,
    Divide,
}

pub open spec fn kw_eq() -> Seq<char> {
    seq!['E', 'Q']
}

pub open spec fn kw_ne() -> Seq<char> {
    seq!['N', 'E']
}

pub open spec fn kw_gt() -> Seq<char> {
    seq!['G', 'T']
}

pub open spec fn kw_lt() -> Seq<char> {
    seq!['L', 'T']
}

pub open spec fn kw_and() -> Seq<char> {
    seq!['A', 'N', 'D']
}

pub open spec fn kw_or() -> Seq<char> {
    seq!['O', 'R']
}

pub open spec fn tok_plus() -> Seq<char> {
    seq!['+']
}

pub open spec fn tok_minus() -> Seq<char> {
    seq!['-']
}

pub open spec fn tok_star() -> Seq<char> {
    seq!['*']
}

pub open spec fn tok_slash() -> Seq<char> {
    seq!['/']
}

pub open spec fn tok_lbracket() -> Seq<char> {
    seq!['[']
}

/// The operator a token names, if any.
pub open spec fn op_of(tok: Seq<char>) -> Option<BinOp> {
    if eq_upper(tok, kw_eq()) {
        Some(BinOp::Eq)
    } else if eq_upper(tok, kw_ne()) {
        Some(BinOp::Ne)
    } else if eq_upper(tok, kw_gt()) {
        Some(BinOp::Gt)
    } else if eq_upper(tok, kw_lt()) {
        Some(BinOp::Lt)
    } else if eq_upper(tok, kw_and()) {
        Some(BinOp::And)
    } else if eq_upper(tok, kw_or()) {
        Some(BinOp::Or)
    } else if eq_upper(tok, tok_plus()) {
        Some(BinOp::Add)
    } else if eq_upper(tok, tok_minus()) {
        Some(BinOp::Subtract)
    } else if eq_upper(tok, tok_star()) {
        Some(BinOp::Multiply)
    } else if eq_upper(tok, tok_slash()) {
        Some(BinOp::Divide)
    } else {
        None
    }
}

/// An operator node over two operands.
pub open spec fn mk_op(op: BinOp, l: ExprV, r: ExprV) -> ExprV {
    match op {
        BinOp::Eq => ExprV::Eq(Box::new(l), Box::new(r)),
        BinOp::Ne => ExprV::Ne(Box::new(l), Box::new(r)),
        BinOp::Gt => ExprV::Gt(Box::new(l), Box::new(r)),
        BinOp::Lt => ExprV::Lt(Box::new(l), Box::new(r)),
        BinOp::And => ExprV::And(Box::new(l), Box::new(r)),
        BinOp::Or => ExprV::Or(Box::new(l), Box::new(r)),
        BinOp::Add => ExprV::Add(Box::new(l), Box::new(r)),
        BinOp::Subtract => ExprV::Subtract(Box::new(l), Box::new(r)),
        BinOp::Multiply => ExprV::Multiply(Box::new(l), Box::new(r)),
        BinOp::Divide => ExprV::Divide(Box::new(l), Box::new(r)),
    }
}

/// One expression read from the token stream starting at `p`, with the
/// position left for the caller: `Ok(None)` when the tokens ran out
/// mid-construction, a fatal fault on a token that is no value. The fuel
/// only bounds recursion depth; one token is consumed per step, so any
/// fuel above the remaining token count gives the defined result.
pub open spec fn from_tokens_f(toks: Seq<Seq<char>>, p: int, f: nat) -> (Result<
    Option<ExprV>,
    ErrV,
>, int)
    decreases f,
{
    if f == 0 || p < 0 || p >= toks.len() {
        (Ok(None), p)
    } else {
        let tok = toks[p];
        match op_of(tok) {
            Some(op) => {
                let (lres, q) = from_tokens_f(toks, p + 1, (f - 1) as nat);
                match lres {
                    Err(e) => (Err(e), q),
                    Ok(None) => (Ok(None), q),
                    Ok(Some(le)) => {
                        let (rres, w) = from_tokens_f(toks, q, (f - 1) as nat);
                        match rres {
                            Err(e) => (Err(e), w),
                            Ok(None) => (Ok(None), w),
                            Ok(Some(re)) => (Ok(Some(mk_op(op, le, re))), w),
                        }
                    },
                }
            },
            None => {
                if tok == tok_lbracket() {
                    (Ok(Some(ExprV::Value(tok))), p + 1)
                } else if is_value_token(tok) {
                    (Ok(Some(ExprV::Value(tok))), p + 1)
                } else {
                    (Err(ErrV::InvalidValue { token: tok }), p + 1)
                }
            },
        }
    }
}

/// The position a parse leaves never goes backward, never passes the end,
/// and advances past at least one token when one was available.
pub proof fn lemma_from_tokens_f_bounds(toks: Seq<Seq<char>>, p: int, f: nat)
    requires
        0 <= p,
        f >= toks.len() - p + 1,
    ensures
        p <= from_tokens_f(toks, p, f).1,
        from_tokens_f(toks, p, f).1 <= (if p <= toks.len() {
            toks.len() as int
        } else {
            p
        }),
        p < toks.len() ==> from_tokens_f(toks, p, f).1 >= p + 1,
    decreases f,
{
    if f == 0 || p < 0 || p >= toks.len() {
    } else {
        let tok = toks[p];
        match op_of(tok) {
            Some(op) => {
                lemma_from_tokens_f_bounds(toks, p + 1, (f - 1) as nat);
                let (lres, q) = from_tokens_f(toks, p + 1, (f - 1) as nat);
                lemma_from_tokens_f_bounds(toks, q, (f - 1) as nat);
            },
            None => {},
        }
    }
}

/// Above the sufficient level, the fuel does not change the result.
pub proof fn lemma_from_tokens_f_fuel(toks: Seq<Seq<char>>, p: int, f1: nat, f2: nat)
    requires
        0 <= p,
        f1 >= toks.len() - p + 1,
        f2 >= toks.len() - p + 1,
    ensures
        from_tokens_f(toks, p, f1) == from_tokens_f(toks, p, f2),
    decreases f1,
{
    if f1 == 0 || p < 0 || p >= toks.len() {
    } else {
        let tok = toks[p];
        match op_of(tok) {
            Some(op) => {
                lemma_from_tokens_f_fuel(toks, p + 1, (f1 - 1) as nat, (f2 - 1) as nat);
                lemma_from_tokens_f_bounds(toks, p + 1, (f1 - 1) as nat);
                let (lres, q) = from_tokens_f(toks, p + 1, (f1 - 1) as nat);
                lemma_from_tokens_f_fuel(toks, q, (f1 - 1) as nat, (f2 - 1) as nat);
            },
            None => {},
        }
    }
}

/// One expression read from the token stream starting at `p`.
pub open spec fn spec_from_tokens(toks: Seq<Seq<char>>, p: int) -> (Result<
    Option<ExprV>,
    ErrV,
>, int) {
    from_tokens_f(toks, p, (toks.len() - p + 1) as nat)
}

/// The view of an expression-parse outcome.
pub open spec fn expr_res_dv(r: Result<Option<Expression>, LogoError>) -> Result<
    Option<ExprV>,
    ErrV,
> {
    match r {
        Ok(Some(e)) => Ok(Some(e.dv())),
        Ok(None) => Ok(None),
        Err(er) => Err(er@),
    }
}

/// The string-literal views of the operator and bracket tokens.
proof fn op_kw_facts()
    ensures
        "EQ"@ == kw_eq(),
        "NE"@ == kw_ne(),
        "GT"@ == kw_gt(),
        "LT"@ == kw_lt(),
        "AND"@ == kw_and(),
        "OR"@ == kw_or(),
        "+"@ == tok_plus(),
        "-"@ == tok_minus(),
        "*"@ == tok_star(),
        "/"@ == tok_slash(),
        "["@ == tok_lbracket(),
{
    reveal_strlit("EQ");
    reveal_strlit("NE");
    reveal_strlit("GT");
    reveal_strlit("LT");
    reveal_strlit("AND");
    reveal_strlit("OR");
    reveal_strlit("+");
    reveal_strlit("-");
    reveal_strlit("*");
    reveal_strlit("/");
    reveal_strlit("[");
    assert("EQ"@ =~= kw_eq());
    assert("NE"@ =~= kw_ne());
    assert("GT"@ =~= kw_gt());
    assert("LT"@ =~= kw_lt());
    assert("AND"@ =~= kw_and());
    assert("OR"@ =~= kw_or());
    assert("+"@ =~= tok_plus());
    assert("-"@ =~= tok_minus());
    assert("*"@ =~= tok_star());
    assert("/"@ =~= tok_slash());
    assert("["@ =~= tok_lbracket());
}

/// The operator a token names, if any.
fn op_of_token(tok: &str) -> (r: Option<BinOp>)
    ensures
        r == op_of(tok@),
{
    proof {
        op_kw_facts();
    }
    if token_matches(tok, "EQ") {
        Some(BinOp::Eq)
    } else if token_matches(tok, "NE") {
        Some(BinOp::Ne)
    } else if token_matches(tok, "GT") {
        Some(BinOp::Gt)
    } else if token_matches(tok, "LT") {
        Some(BinOp::Lt)
    } else if token_matches(tok, "AND") {
        Some(BinOp::And)
    } else if token_matches(tok, "OR") {
        Some(BinOp::Or)
    } else if token_matches(tok, "+") {
        Some(BinOp::Add)
    } else if token_matches(tok, "-") {
        Some(BinOp::Subtract)
    } else if token_matches(tok, "*") {
        Some(BinOp::Multiply)
    } else if token_matches(tok, "/") {
        Some(BinOp::Divide)
    } else {
        None
    }
}

/// Builds the operator node owning its two operands.
fn build_op(op: BinOp, l: Expression, r: Expression) -> (res: Expression)
    ensures
        res.dv() == mk_op(op, l.dv(), r.dv()),
{
    match op {
        BinOp::Eq => Expression::Eq(Box::new(l), Box::new(r)),
        BinOp::Ne => Expression::Ne(Box::new(l), Box::new(r)),
        BinOp::Gt => Expression::Gt(Box::new(l), Box::new(r)),
        BinOp::Lt => Expression::Lt(Box::new(l), Box::new(r)),
        BinOp::And => Expression::And(Box::new(l), Box::new(r)),
        BinOp::Or => Expression::Or(Box::new(l), Box::new(r)),
        BinOp::Add => Expression::Add(Box::new(l), Box::new(r)),
        BinOp::Subtract => Expression::Subtract(Box::new(l), Box::new(r)),
        BinOp::Multiply => Expression::Multiply(Box::new(l), Box::new(r)),
        BinOp::Divide => Expression::Divide(Box::new(l), Box::new(r)),
    }
}

impl Expression {
    /// Consumes tokens from position `pos` to build one expression, leaving
    /// unconsumed tokens for the caller. `Ok(None)` means the tokens ran out
    /// mid-construction; a token that is no operator and no value is fatal.
    pub fn from_tokens(tokens: &Vec<String>, pos: usize) -> (r: (Result<
        Option<Expression>,
        LogoError,
    >, usize))
        requires
            pos <= tokens@.len(),
        ensures
            spec_from_tokens(tokens.deep_view(), pos as int) == (expr_res_dv(r.0), r.1 as int),
            pos <= r.1 <= tokens@.len(),
            pos < tokens@.len() ==> r.1 >= pos + 1,
        decreases tokens@.len() - pos,
    {
        let ghost toks = tokens.deep_view();
        proof {
            assert(toks.len() == tokens@.len());
        }
        if pos >= tokens.len() {
            return (Ok(None), pos);
        }
        let tok = &tokens[pos];
        proof {
            assert(toks[pos as int] == tok@);
        }
        match op_of_token(tok.as_str()) {
            Some(op) => {
                let (lres, q) = Expression::from_tokens(tokens, pos + 1);
                proof {
                    lemma_from_tokens_f_fuel(
                        toks,
                        pos + 1,
                        (toks.len() - (pos + 1) + 1) as nat,
                        (toks.len() - pos) as nat,
                    );
                }
                let le = match lres {
                    Err(e) => {
                        return (Err(e), q);
                    },
                    Ok(None) => {
                        return (Ok(None), q);
                    },
                    Ok(Some(le)) => le,
                };
                let (rres, w) = Expression::from_tokens(tokens, q);
                proof {
                    lemma_from_tokens_f_fuel(
                        toks,
                        q as int,
                        (toks.len() - q + 1) as nat,
                        (toks.len() - pos) as nat,
                    );
                }
                match rres {
                    Err(e) => (Err(e), w),
                    Ok(None) => (Ok(None), w),
                    Ok(Some(re)) => (Ok(Some(build_op(op, le, re))), w),
                }
            },
            None => {
                proof {
                    op_kw_facts();
                }
                if str_eq(tok.as_str(), "[") {
                    (Ok(Some(Expression::Value(tok.clone()))), pos + 1)
                } else if is_valid_value(tok.as_str()) {
                    (Ok(Some(Expression::Value(tok.clone()))), pos + 1)
                } else {
                    (Err(LogoError::InvalidValue { token: tok.clone() }), pos + 1)
                }
            },
        }
    }
}

/// A parse that runs out of tokens has consumed them all.
pub proof fn lemma_from_tokens_none(toks: Seq<Seq<char>>, p: int, f: nat)
    requires
        0 <= p <= toks.len(),
        f >= toks.len() - p + 1,
    ensures
        from_tokens_f(toks, p, f).0 == Ok::<Option<ExprV>, ErrV>(None::<ExprV>)
            ==> from_tokens_f(toks, p, f).1 == toks.len(),
    decreases f,
{
    if f == 0 || p < 0 || p >= toks.len() {
    } else {
        let tok = toks[p];
        match op_of(tok) {
            Some(op) => {
                lemma_from_tokens_none(toks, p + 1, (f - 1) as nat);
                lemma_from_tokens_f_bounds(toks, p + 1, (f - 1) as nat);
                let (lres, q) = from_tokens_f(toks, p + 1, (f - 1) as nat);
                lemma_from_tokens_none(toks, q, (f - 1) as nat);
                lemma_from_tokens_f_bounds(toks, q, (f - 1) as nat);
            },
            None => {},
        }
    }
}

/// `n` expressions read in sequence from position `p`: the expressions that
/// were completed, and the position after the last token consumed.
pub open spec fn collect_n(toks: Seq<Seq<char>>, p: int, n: nat) -> (Result<Seq<ExprV>, ErrV>, int)
    decreases n,
{
    if n == 0 {
        (Ok(Seq::empty()), p)
    } else {
        let (r1, q) = spec_from_tokens(toks, p);
        match r1 {
            Err(e) => (Err(e), q),
            Ok(opt) => {
                let (r2, w) = collect_n(toks, q, (n - 1) as nat);
                match r2 {
                    Err(e) => (Err(e), w),
                    Ok(rest) => match opt {
                        Some(e1) => (Ok(seq![e1] + rest), w),
                        None => (Ok(rest), w),
                    },
                }
            },
        }
    }
}

/// A completed fixed-arity collection stands within bounds, and a short one
/// has consumed every token.
pub proof fn lemma_collect_n(toks: Seq<Seq<char>>, p: int, n: nat)
    requires
        0 <= p <= toks.len(),
    ensures
        p <= collect_n(toks, p, n).1 <= toks.len(),
        collect_n(toks, p, n).0 matches Ok(args) ==> args.len() <= n && (args.len() < n
            ==> collect_n(toks, p, n).1 == toks.len()),
    decreases n,
{
    if n != 0 {
        let (r1, q) = spec_from_tokens(toks, p);
        lemma_from_tokens_f_bounds(toks, p, (toks.len() - p + 1) as nat);
        lemma_from_tokens_none(toks, p, (toks.len() - p + 1) as nat);
        lemma_collect_n(toks, q, (n - 1) as nat);
        match r1 {
            Ok(opt) => {
                if opt is None {
                    lemma_collect_n_at_end(toks, q, (n - 1) as nat);
                }
            },
            Err(_) => {},
        }
    }
}

/// Collecting from the end of the tokens completes at once, empty.
pub proof fn lemma_collect_n_at_end(toks: Seq<Seq<char>>, p: int, n: nat)
    requires
        p == toks.len(),
    ensures
        collect_n(toks, p, n).0 == Ok::<Seq<ExprV>, ErrV>(Seq::<ExprV>::empty()),
        collect_n(toks, p, n).1 == p,
    decreases n,
{
    if n != 0 {
        lemma_collect_n_at_end(toks, p, (n - 1) as nat);
        assert(Seq::<ExprV>::empty() + Seq::<ExprV>::empty() =~= Seq::<ExprV>::empty());
    }
}

/// Exactly `n` argument expressions read after a fixed-arity command, or the
/// fatal fault: an invalid token, or a token count that does not reduce to
/// the declared arity.
pub open spec fn spec_get_args_fixed(
    toks: Seq<Seq<char>>,
    start: int,
    n: nat,
    cmd: Seq<char>,
) -> Result<Seq<ExprV>, ErrV> {
    let (r, q) = collect_n(toks, start, n);
    match r {
        Err(e) => Err(e),
        Ok(args) => if args.len() + (toks.len() - q) != n {
            Err(
                ErrV::ArityMismatch {
                    command: cmd,
                    received: (args.len() + (toks.len() - q)) as nat,
                    expected: n,
                },
            )
        } else {
            Ok(args)
        },
    }
}

/// Every remaining token consumed greedily into expressions.
pub open spec fn collect_all(toks: Seq<Seq<char>>, p: int) -> Result<Seq<ExprV>, ErrV>
    decreases toks.len() - p,
    via collect_all_decreases
{
    if p < 0 || p >= toks.len() {
        Ok(Seq::empty())
    } else {
        let (r1, q) = spec_from_tokens(toks, p);
        match r1 {
            Err(e) => Err(e),
            Ok(opt) => match collect_all(toks, q) {
                Err(e) => Err(e),
                Ok(rest) => Ok(
                    match opt {
                        Some(e1) => seq![e1] + rest,
                        None => rest,
                    },
                ),
            },
        }
    }
}

#[via_fn]
proof fn collect_all_decreases(toks: Seq<Seq<char>>, p: int) {
    if 0 <= p && p < toks.len() {
        lemma_from_tokens_f_bounds(toks, p, (toks.len() - p + 1) as nat);
    }
}

/// Reads argument tokens after a command word. With `Some(n)` exactly `n`
/// expressions are required, a mismatch is fatal, and the result holds `n`
/// expressions; with `None` every remaining token is consumed greedily.
pub fn get_args(cmd: &str, arg_size: Option<usize>, tokens: &Vec<String>, start: usize) -> (r:
    Result<Vec<Expression>, LogoError>)
    requires
        start <= tokens@.len(),
    ensures
        match arg_size {
            Some(n) => match r {
                Ok(args) => spec_get_args_fixed(tokens.deep_view(), start as int, n as nat, cmd@)
                    == Ok::<Seq<ExprV>, ErrV>(exprs_dv(args@)) && args@.len() == n,
                Err(e) => spec_get_args_fixed(tokens.deep_view(), start as int, n as nat, cmd@)
                    == Err::<Seq<ExprV>, ErrV>(e@),
            },
            None => match r {
                Ok(args) => collect_all(tokens.deep_view(), start as int) == Ok::<
                    Seq<ExprV>,
                    ErrV,
                >(exprs_dv(args@)),
                Err(e) => collect_all(tokens.deep_view(), start as int) == Err::<
                    Seq<ExprV>,
                    ErrV,
                >(e@),
            },
        },
{
    let ghost toks = tokens.deep_view();
    proof {
        assert(toks.len() == tokens@.len());
    }
    let mut args: Vec<Expression> = Vec::new();
    let mut p: usize = start;
    match arg_size {
        Some(n) => {
            let mut k: usize = 0;
            proof {
                assert(exprs_dv(args@) =~= Seq::<ExprV>::empty());
            }
            while k < n
                invariant
                    arg_size == Some(n),
                    toks == tokens.deep_view(),
                    toks.len() == tokens@.len(),
                    start <= p <= toks.len(),
                    k <= n,
                    args@.len() <= k,
                    args@.len() <= p - start,
                    ({
                        let (r2, w) = collect_n(toks, p as int, (n - k) as nat);
                        collect_n(toks, start as int, n as nat) == (match r2 {
                            Err(e) => (Err::<Seq<ExprV>, ErrV>(e), w),
                            Ok(rest) => (Ok::<Seq<ExprV>, ErrV>(exprs_dv(args@) + rest), w),
                        })
                    }),
                decreases n - k,
            {
                let ghost args0 = args@;
                let (res, p2) = Expression::from_tokens(tokens, p);
                proof {
                    assert(collect_n(toks, p as int, (n - k) as nat).0 == (match expr_res_dv(
                        res,
                    ) {
                        Err(e) => Err::<Seq<ExprV>, ErrV>(e),
                        Ok(_) => collect_n(toks, p as int, (n - k) as nat).0,
                    }));
                }
                match res {
                    Err(e) => {
                        proof {
                            assert(spec_get_args_fixed(toks, start as int, n as nat, cmd@)
                                == Err::<Seq<ExprV>, ErrV>(e@));
                        }
                        return Err(e);
                    },
                    Ok(Some(e1)) => {
                        args.push(e1);
                        proof {
                            let (r2, w) = collect_n(toks, p2 as int, (n - k - 1) as nat);
                            match r2 {
                                Ok(rest) => {
                                    assert(exprs_dv(args@) =~= exprs_dv(args0).push(
                                        args@[args@.len() - 1].dv(),
                                    ));
                                    assert(exprs_dv(args@) + rest =~= exprs_dv(args0) + (seq![
                                        args@[args@.len() - 1].dv(),
                                    ] + rest));
                                },
                                Err(_) => {},
                            }
                        }
                    },
                    Ok(None) => {},
                }
                p = p2;
                k = k + 1;
            }
            proof {
                assert(collect_n(toks, p as int, 0) == (Ok::<Seq<ExprV>, ErrV>(
                    Seq::<ExprV>::empty(),
                ), p as int));
                assert(exprs_dv(args@) + Seq::<ExprV>::empty() =~= exprs_dv(args@));
                lemma_collect_n(toks, start as int, n as nat);
            }
            let remaining = tokens.len() - p;
            let ghost crq = collect_n(toks, start as int, n as nat);
            proof {
                assert(crq.0 == Ok::<Seq<ExprV>, ErrV>(exprs_dv(args@)));
                assert(crq.1 == p as int);
            }
            if args.len() + remaining != n {
                proof {
                    assert(spec_get_args_fixed(toks, start as int, n as nat, cmd@) == Err::<
                        Seq<ExprV>,
                        ErrV,
                    >(
                        ErrV::ArityMismatch {
                            command: cmd@,
                            received: (args@.len() + (toks.len() - p as int)) as nat,
                            expected: n as nat,
                        },
                    ));
                }
                return Err(
                    LogoError::ArityMismatch {
                        command: cmd.to_owned(),
                        received: args.len() + remaining,
                        expected: n,
                    },
                );
            }
            proof {
                assert(args@.len() == n);
                assert(spec_get_args_fixed(toks, start as int, n as nat, cmd@) == Ok::<
                    Seq<ExprV>,
                    ErrV,
                >(exprs_dv(args@)));
            }
            Ok(args)
        },
        None => {
            proof {
                assert(exprs_dv(args@) =~= Seq::<ExprV>::empty());
            }
            while p < tokens.len()
                invariant
                    arg_size is None,
                    toks == tokens.deep_view(),
                    toks.len() == tokens@.len(),
                    start <= p <= toks.len(),
                    ({
                        match collect_all(toks, p as int) {
                            Err(e) => collect_all(toks, start as int) == Err::<
                                Seq<ExprV>,
                                ErrV,
                            >(e),
                            Ok(rest) => collect_all(toks, start as int) == Ok::<
                                Seq<ExprV>,
                                ErrV,
                            >(exprs_dv(args@) + rest),
                        }
                    }),
                decreases toks.len() - p,
            {
                let ghost args0 = args@;
                let (res, p2) = Expression::from_tokens(tokens, p);
                match res {
                    Err(e) => {
                        return Err(e);
                    },
                    Ok(Some(e1)) => {
                        args.push(e1);
                        proof {
                            match collect_all(toks, p2 as int) {
                                Ok(rest) => {
                                    assert(exprs_dv(args@) =~= exprs_dv(args0).push(
                                        args@[args@.len() - 1].dv(),
                                    ));
                                    assert(exprs_dv(args@) + rest =~= exprs_dv(args0) + (seq![
                                        args@[args@.len() - 1].dv(),
                                    ] + rest));
                                },
                                Err(_) => {},
                            }
                        }
                    },
                    Ok(None) => {},
                }
                p = p2;
            }
            proof {
                assert(collect_all(toks, p as int) == Ok::<Seq<ExprV>, ErrV>(
                    Seq::<ExprV>::empty(),
                ));
                assert(exprs_dv(args@) + Seq::<ExprV>::empty() =~= exprs_dv(args@));
            }
            Ok(args)
        },
    }
}

/// The condition of an `IF` or `WHILE` header: the arguments must reduce to
/// exactly one expression followed by the literal token `[`.
pub open spec fn spec_check_brace(cmd: Seq<char>, args: Seq<ExprV>) -> Result<ExprV, ErrV> {
    if args.len() != 2 {
        Err(ErrV::IncorrectBlockCondition { command: cmd })
    } else {
        match args[1] {
            ExprV::Value(t) => if t == tok_lbracket() {
                Ok(args[0])
            } else {
                Err(ErrV::MissingStartingBrace)
            },
            _ => Err(ErrV::MissingStartingBrace),
        }
    }
}

/// Requires a block header's arguments to end with the opening brace and
/// hands back the condition in front of it.
pub fn check_has_left_bracket(cmd: &str, args: Vec<Expression>) -> (r: Result<
    Expression,
    LogoError,
>)
    ensures
        match r {
            Ok(e) => spec_check_brace(cmd@, exprs_dv(args@)) == Ok::<ExprV, ErrV>(e.dv()),
            Err(er) => spec_check_brace(cmd@, exprs_dv(args@)) == Err::<ExprV, ErrV>(er@),
        },
{
    let ghost args0 = args@;
    if args.len() != 2 {
        return Err(LogoError::IncorrectBlockCondition { command: cmd.to_owned() });
    }
    let mut args = args;
    let second = match args.pop() {
        Some(e) => e,
        None => unreached(),
    };
    proof {
        assert(second.dv() == exprs_dv(args0)[1]);
    }
    match second {
        Expression::Value(t) => {
            proof {
                op_kw_facts();
            }
            if str_eq(t.as_str(), "[") {
                let first = match args.pop() {
                    Some(e) => e,
                    None => unreached(),
                };
                proof {
                    assert(first.dv() == exprs_dv(args0)[0]);
                }
                Ok(first)
            } else {
                Err(LogoError::MissingStartingBrace)
            }
        },
        _ => Err(LogoError::MissingStartingBrace),
    }
}

/// A still-open block: the header that opened it and the commands of its
/// body collected so far.
pub enum FrameKindV {
    IfK(ExprV),
    WhileK(ExprV),
    ToK(Seq<char>, Seq<ExprV>),
}

#[verifier::ext_equal]
pub struct FrameV {
    pub kind: FrameKindV,
    pub cmds: Seq<CmdV>,
}

/// The parser's state between lines: finished top-level commands, the stack
/// of open blocks, and the counts of open bracketed blocks and open
/// procedure definitions.
#[verifier::ext_equal]
pub struct PStateV {
    pub root: Seq<CmdV>,
    pub stack: Seq<FrameV>,
    pub braces: int,
    pub ends: int,
}

pub open spec fn init_pstate() -> PStateV {
    PStateV { root: Seq::empty(), stack: Seq::empty(), braces: 0, ends: 0 }
}

/// Every open block is counted exactly once, by one of the two counters.
pub open spec fn pstate_wf(st: PStateV) -> bool {
    st.braces >= 0 && st.ends >= 0 && st.stack.len() == st.braces + st.ends
}

/// A finished command joins the innermost open block, or the root.
pub open spec fn st_push_cmd(st: PStateV, c: CmdV) -> PStateV {
    if st.stack.len() > 0 {
        let last = st.stack.last();
        PStateV {
            stack: st.stack.update(
                st.stack.len() - 1,
                FrameV { kind: last.kind, cmds: last.cmds.push(c) },
            ),
            ..st
        }
    } else {
        PStateV { root: st.root.push(c), ..st }
    }
}

/// The command a closed frame becomes.
pub open spec fn frame_cmd(fr: FrameV) -> CmdV {
    match fr.kind {
        FrameKindV::IfK(e) => CmdV::If(e, fr.cmds),
        FrameKindV::WhileK(e) => CmdV::While(e, fr.cmds),
        FrameKindV::ToK(n, ps) => CmdV::To(n, ps, fr.cmds),
    }
}

/// A closer line closes the innermost open block, whatever opened it, and
/// the finished command joins the enclosing block.
pub open spec fn st_close(st: PStateV) -> PStateV {
    let fr = st.stack.last();
    st_push_cmd(PStateV { stack: st.stack.drop_last(), ..st }, frame_cmd(fr))
}

pub open spec fn kw_penup() -> Seq<char> {
    seq!['P', 'E', 'N', 'U', 'P']
}

pub open spec fn kw_pendown() -> Seq<char> {
    seq!['P', 'E', 'N', 'D', 'O', 'W', 'N']
}

pub open spec fn kw_forward() -> Seq<char> {
    seq!['F', 'O', 'R', 'W', 'A', 'R', 'D']
}

pub open spec fn kw_back() -> Seq<char> {
    seq!['B', 'A', 'C', 'K']
}

pub open spec fn kw_left() -> Seq<char> {
    seq!['L', 'E', 'F', 'T']
}

pub open spec fn kw_right() -> Seq<char> {
    seq!['R', 'I', 'G', 'H', 'T']
}

pub open spec fn kw_setpencolor() -> Seq<char> {
    seq!['S', 'E', 'T', 'P', 'E', 'N', 'C', 'O', 'L', 'O', 'R']
}

pub open spec fn kw_turn() -> Seq<char> {
    seq!['T', 'U', 'R', 'N']
}

pub open spec fn kw_setheading() -> Seq<char> {
    seq!['S', 'E', 'T', 'H', 'E', 'A', 'D', 'I', 'N', 'G']
}

pub open spec fn kw_setx() -> Seq<char> {
    seq!['S', 'E', 'T', 'X']
}

pub open spec fn kw_sety() -> Seq<char> {
    seq!['S', 'E', 'T', 'Y']
}

pub open spec fn kw_make() -> Seq<char> {
    seq!['M', 'A', 'K', 'E']
}

pub open spec fn kw_addassign() -> Seq<char> {
    seq!['A', 'D', 'D', 'A', 'S', 'S', 'I', 'G', 'N']
}

pub open spec fn kw_if() -> Seq<char> {
    seq!['I', 'F']
}

pub open spec fn kw_while() -> Seq<char> {
    seq!['W', 'H', 'I', 'L', 'E']
}

pub open spec fn kw_to() -> Seq<char> {
    seq!['T', 'O']
}

pub open spec fn kw_end() -> Seq<char> {
    seq!['E', 'N', 'D']
}

pub open spec fn tok_rbracket() -> Seq<char> {
    seq![']']
}

/// A fixed-arity statement: the command view it builds from its arguments.
pub open spec fn fixed_cmd(cmd: Seq<char>, args: Seq<ExprV>) -> Option<CmdV> {
    if eq_upper(cmd, kw_penup()) {
        Some(CmdV::PenUp)
    } else if eq_upper(cmd, kw_pendown()) {
        Some(CmdV::PenDown)
    } else if eq_upper(cmd, kw_forward()) {
        Some(CmdV::Forward(args[0]))
    } else if eq_upper(cmd, kw_back()) {
        Some(CmdV::Back(args[0]))
    } else if eq_upper(cmd, kw_left()) {
        Some(CmdV::Left(args[0]))
    } else if eq_upper(cmd, kw_right()) {
        Some(CmdV::Right(args[0]))
    } else if eq_upper(cmd, kw_setpencolor()) {
        Some(CmdV::SetPenColor(args[0]))
    } else if eq_upper(cmd, kw_turn()) {
        Some(CmdV::Turn(args[0]))
    } else if eq_upper(cmd, kw_setheading()) {
        Some(CmdV::SetHeading(args[0]))
    } else if eq_upper(cmd, kw_setx()) {
        Some(CmdV::SetX(args[0]))
    } else if eq_upper(cmd, kw_sety()) {
        Some(CmdV::SetY(args[0]))
    } else if eq_upper(cmd, kw_make()) {
        Some(CmdV::Make(args[0], args[1]))
    } else if eq_upper(cmd, kw_addassign()) {
        Some(CmdV::AddAssign(args[0], args[1]))
    } else {
        None
    }
}

/// The declared arity of a fixed-arity statement keyword.
pub open spec fn fixed_arity(cmd: Seq<char>) -> nat {
    if eq_upper(cmd, kw_penup()) || eq_upper(cmd, kw_pendown()) {
        0
    } else if eq_upper(cmd, kw_make()) || eq_upper(cmd, kw_addassign()) {
        2
    } else {
        1
    }
}

/// One source line applied to the parser state: a fatal fault, or the next
/// state.
pub open spec fn parse_step(st: PStateV, toks: Seq<Seq<char>>) -> Result<PStateV, ErrV> {
    if toks.len() == 0 {
        Ok(st)
    } else {
        let cmd = toks[0];
        if cmd.len() >= 2 && cmd[0] == '/' && cmd[1] == '/' {
            Ok(st)
        } else if fixed_cmd(cmd, Seq::empty()) is Some {
            match spec_get_args_fixed(toks, 1, fixed_arity(cmd), cmd) {
                Err(e) => Err(e),
                Ok(args) => Ok(st_push_cmd(st, fixed_cmd(cmd, args).unwrap())),
            }
        } else if cmd == tok_rbracket() {
            match spec_get_args_fixed(toks, 1, 0, cmd) {
                Err(e) => Err(e),
                Ok(_) => if st.braces <= 0 || st.stack.len() == 0 {
                    Err(ErrV::UnmatchedBracket)
                } else {
                    Ok(PStateV { braces: st.braces - 1, ..st_close(st) })
                },
            }
        } else if eq_upper(cmd, kw_if()) {
            match collect_all(toks, 1) {
                Err(e) => Err(e),
                Ok(args) => match spec_check_brace(cmd, args) {
                    Err(e) => Err(e),
                    Ok(cond) => Ok(
                        PStateV {
                            stack: st.stack.push(
                                FrameV { kind: FrameKindV::IfK(cond), cmds: Seq::empty() },
                            ),
                            braces: st.braces + 1,
                            ..st
                        },
                    ),
                },
            }
        } else if eq_upper(cmd, kw_while()) {
            match collect_all(toks, 1) {
                Err(e) => Err(e),
                Ok(args) => match spec_check_brace(cmd, args) {
                    Err(e) => Err(e),
                    Ok(cond) => Ok(
                        PStateV {
                            stack: st.stack.push(
                                FrameV { kind: FrameKindV::WhileK(cond), cmds: Seq::empty() },
                            ),
                            braces: st.braces + 1,
                            ..st
                        },
                    ),
                },
            }
        } else if eq_upper(cmd, kw_to()) {
            if toks.len() < 2 {
                Err(ErrV::MissingProcedureName)
            } else {
                let name = toks[1];
                if is_value_token(name) {
                    Err(ErrV::InvalidProcedureName { name })
                } else {
                    match collect_all(toks, 2) {
                        Err(e) => Err(e),
                        Ok(params) => Ok(
                            PStateV {
                                stack: st.stack.push(
                                    FrameV {
                                        kind: FrameKindV::ToK(name, params),
                                        cmds: Seq::empty(),
                                    },
                                ),
                                ends: st.ends + 1,
                                ..st
                            },
                        ),
                    }
                }
            }
        } else if eq_upper(cmd, kw_end()) {
            match spec_get_args_fixed(toks, 1, 0, cmd) {
                Err(e) => Err(e),
                Ok(_) => if st.ends <= 0 || st.stack.len() == 0 {
                    Err(ErrV::UnmatchedEnd)
                } else {
                    Ok(PStateV { ends: st.ends - 1, ..st_close(st) })
                },
            }
        } else {
            match collect_all(toks, 1) {
                Err(e) => Err(e),
                Ok(args) => Ok(st_push_cmd(st, CmdV::Procedure(cmd, args))),
            }
        }
    }
}

/// The whole script folded through `parse_step` from line `i` on; at the
/// end of the lines, a still-open block is fatal.
pub open spec fn parse_all(lines: Seq<Seq<char>>, i: int, st: PStateV) -> Result<Seq<CmdV>, ErrV>
    decreases lines.len() - i,
{
    if i < 0 || i >= lines.len() {
        if st.braces != 0 {
            Err(ErrV::UnclosedBrace)
        } else if st.ends != 0 {
            Err(ErrV::UnclosedProcedure)
        } else {
            Ok(st.root)
        }
    } else {
        match parse_step(st, tokenize(lines[i])) {
            Err(e) => Err(e),
            Ok(st2) => parse_all(lines, i + 1, st2),
        }
    }
}

/// The command tree a list of source lines parses to, or its first fault.
pub open spec fn spec_parse_lines(lines: Seq<Seq<char>>) -> Result<Seq<CmdV>, ErrV> {
    parse_all(lines, 0, init_pstate())
}

/// The command tree source text parses to, or its first fault.
pub open spec fn spec_parse_source(text: Seq<char>) -> Result<Seq<CmdV>, ErrV> {
    spec_parse_lines(crate::text::split_lines_spec(text))
}

/// Parsing is a function of the source text alone: identical text always
/// yields the structurally identical command tree, or the identical fault.
pub proof fn lemma_parse_deterministic(a: Seq<char>, b: Seq<char>)
    requires
        a == b,
    ensures
        spec_parse_source(a) == spec_parse_source(b),
{
}

/// A still-open block under construction.
pub enum FrameKind {
    IfK(Expression),
    WhileK(Expression),
    ToK(String, Vec<Expression>),
}

pub struct Frame {
    pub kind: FrameKind,
    pub cmds: Vec<Command>,
}

impl Frame {
    /// The frame as a mathematical record.
    pub open spec fn fv(self) -> FrameV {
        FrameV {
            kind: match self.kind {
                FrameKind::IfK(e) => FrameKindV::IfK(e.dv()),
                FrameKind::WhileK(e) => FrameKindV::WhileK(e.dv()),
                FrameKind::ToK(n, ps) => FrameKindV::ToK(n@, exprs_dv(ps@)),
            },
            cmds: cmds_dv(self.cmds@),
        }
    }
}

/// The parser's state between lines.
pub struct ParseState {
    pub root: Vec<Command>,
    pub stack: Vec<Frame>,
    pub braces: usize,
    pub ends: usize,
}

impl View for ParseState {
    type V = PStateV;

    open spec fn view(&self) -> PStateV {
        PStateV {
            root: cmds_dv(self.root@),
            stack: Seq::new(self.stack@.len(), |i: int| self.stack@[i].fv()),
            braces: self.braces as int,
            ends: self.ends as int,
        }
    }
}

/// Appends a finished command to the innermost open block, or to the root.
fn ps_push_cmd(st: &mut ParseState, c: Command)
    ensures
        final(st)@ == st_push_cmd(old(st)@, c.dv()),
{
    let ghost cv = c.dv();
    if st.stack.len() > 0 {
        let mut fr = match st.stack.pop() {
            Some(fr) => fr,
            None => unreached(),
        };
        let ghost fr0 = fr.fv();
        fr.cmds.push(c);
        proof {
            assert(cmds_dv(fr.cmds@) =~= fr0.cmds.push(cv));
        }
        st.stack.push(fr);
        proof {
            assert(st@ =~~= st_push_cmd(old(st)@, cv));
        }
    } else {
        st.root.push(c);
        proof {
            assert(cmds_dv(st.root@) =~= old(st)@.root.push(cv));
            assert(st@ =~~= st_push_cmd(old(st)@, cv));
        }
    }
}

/// Closes the innermost open block and attaches the finished command.
fn ps_close(st: &mut ParseState)
    requires
        old(st)@.stack.len() > 0,
    ensures
        final(st)@ == st_close(old(st)@),
{
    let fr = match st.stack.pop() {
        Some(fr) => fr,
        None => unreached(),
    };
    let ghost frv = fr.fv();
    proof {
        assert(frv == old(st)@.stack.last());
        assert(st@.stack =~= old(st)@.stack.drop_last());
    }
    let Frame { kind, cmds } = fr;
    let c = match kind {
        FrameKind::IfK(e) => Command::If(e, cmds),
        FrameKind::WhileK(e) => Command::While(e, cmds),
        FrameKind::ToK(n, ps) => Command::To(n, ps, cmds),
    };
    proof {
        match &c {
            Command::If(e, body) => {
                lemma_vec_dv(*body);
                assert(c.dv() == CmdV::If(e.dv(), vec_dv(*body, 0)));
            },
            Command::While(e, body) => {
                lemma_vec_dv(*body);
                assert(c.dv() == CmdV::While(e.dv(), vec_dv(*body, 0)));
            },
            Command::To(n, ps, body) => {
                lemma_vec_dv(*body);
                assert(c.dv() == CmdV::To(n@, exprs_dv(ps@), vec_dv(*body, 0)));
            },
            _ => {},
        }
        assert(c.dv() == frame_cmd(frv));
    }
    ps_push_cmd(st, c);
}

/// The string-literal views of the statement keywords.
proof fn cmd_kw_facts()
    ensures
        "PENUP"@ == kw_penup(),
        "PENDOWN"@ == kw_pendown(),
        "FORWARD"@ == kw_forward(),
        "BACK"@ == kw_back(),
        "LEFT"@ == kw_left(),
        "RIGHT"@ == kw_right(),
        "SETPENCOLOR"@ == kw_setpencolor(),
        "TURN"@ == kw_turn(),
        "SETHEADING"@ == kw_setheading(),
        "SETX"@ == kw_setx(),
        "SETY"@ == kw_sety(),
        "MAKE"@ == kw_make(),
        "ADDASSIGN"@ == kw_addassign(),
        "IF"@ == kw_if(),
        "WHILE"@ == kw_while(),
        "TO"@ == kw_to(),
        "END"@ == kw_end(),
        "]"@ == tok_rbracket(),
{
    reveal_strlit("PENUP");
    reveal_strlit("PENDOWN");
    reveal_strlit("FORWARD");
    reveal_strlit("BACK");
    reveal_strlit("LEFT");
    reveal_strlit("RIGHT");
    reveal_strlit("SETPENCOLOR");
    reveal_strlit("TURN");
    reveal_strlit("SETHEADING");
    reveal_strlit("SETX");
    reveal_strlit("SETY");
    reveal_strlit("MAKE");
    reveal_strlit("ADDASSIGN");
    reveal_strlit("IF");
    reveal_strlit("WHILE");
    reveal_strlit("TO");
    reveal_strlit("END");
    reveal_strlit("]");
    assert("PENUP"@ =~= kw_penup());
    assert("PENDOWN"@ =~= kw_pendown());
    assert("FORWARD"@ =~= kw_forward());
    assert("BACK"@ =~= kw_back());
    assert("LEFT"@ =~= kw_left());
    assert("RIGHT"@ =~= kw_right());
    assert("SETPENCOLOR"@ =~= kw_setpencolor());
    assert("TURN"@ =~= kw_turn());
    assert("SETHEADING"@ =~= kw_setheading());
    assert("SETX"@ =~= kw_setx());
    assert("SETY"@ =~= kw_sety());
    assert("MAKE"@ =~= kw_make());
    assert("ADDASSIGN"@ =~= kw_addassign());
    assert("IF"@ =~= kw_if());
    assert("WHILE"@ =~= kw_while());
    assert("TO"@ =~= kw_to());
    assert("END"@ =~= kw_end());
    assert("]"@ =~= tok_rbracket());
}

/// Applies one source line to the parser state.
pub fn parse_line(st: &mut ParseState, line: &str) -> (r: Result<(), LogoError>)
    requires
        pstate_wf(old(st)@),
    ensures
        match r {
            Ok(_) => parse_step(old(st)@, tokenize(line@)) == Ok::<PStateV, ErrV>(final(st)@)
                && pstate_wf(final(st)@),
            Err(e) => parse_step(old(st)@, tokenize(line@)) == Err::<PStateV, ErrV>(e@)
                && final(st)@ == old(st)@,
        },
{
    broadcast use vstd::std_specs::vec::group_vec_axioms;

    let tokens = tokenize_line(line);
    let ghost toks = tokenize(line@);
    proof {
        assert(toks == tokens.deep_view());
        assert(toks.len() == tokens@.len());
        cmd_kw_facts();
    }
    if tokens.len() == 0 {
        return Ok(());
    }
    let c0 = &tokens[0];
    proof {
        assert(c0@ == toks[0]);
    }
    if c0.unicode_len() >= 2 {
        if c0.get_char(0) == '/' && c0.get_char(1) == '/' {
            return Ok(());
        }
    }
    // fixed-arity statements
    let arity: usize = if token_matches(c0.as_str(), "PENUP") || token_matches(
        c0.as_str(),
        "PENDOWN",
    ) {
        0
    } else if token_matches(c0.as_str(), "MAKE") || token_matches(c0.as_str(), "ADDASSIGN") {
        2
    } else {
        1
    };
    let is_fixed = token_matches(c0.as_str(), "PENUP") || token_matches(c0.as_str(), "PENDOWN")
        || token_matches(c0.as_str(), "FORWARD") || token_matches(c0.as_str(), "BACK")
        || token_matches(c0.as_str(), "LEFT") || token_matches(c0.as_str(), "RIGHT")
        || token_matches(c0.as_str(), "SETPENCOLOR") || token_matches(c0.as_str(), "TURN")
        || token_matches(c0.as_str(), "SETHEADING") || token_matches(c0.as_str(), "SETX")
        || token_matches(c0.as_str(), "SETY") || token_matches(c0.as_str(), "MAKE")
        || token_matches(c0.as_str(), "ADDASSIGN");
    if is_fixed {
        proof {
            assert(fixed_arity(c0@) == arity as nat);
        }
        let mut args = match get_args(c0.as_str(), Some(arity), &tokens, 1) {
            Err(e) => {
                return Err(e);
            },
            Ok(args) => args,
        };
        let ghost argsv = exprs_dv(args@);
        let c: Command = if token_matches(c0.as_str(), "PENUP") {
            Command::PenUp
        } else if token_matches(c0.as_str(), "PENDOWN") {
            Command::PenDown
        } else if token_matches(c0.as_str(), "MAKE") || token_matches(c0.as_str(), "ADDASSIGN") {
            let a1 = match args.pop() {
                Some(a) => a,
                None => unreached(),
            };
            let a0 = match args.pop() {
                Some(a) => a,
                None => unreached(),
            };
            proof {
                assert(a0.dv() == argsv[0] && a1.dv() == argsv[1]);
            }
            if token_matches(c0.as_str(), "MAKE") {
                Command::Make(a0, a1)
            } else {
                Command::AddAssign(a0, a1)
            }
        } else {
            let a0 = match args.pop() {
                Some(a) => a,
                None => unreached(),
            };
            proof {
                assert(a0.dv() == argsv[0]);
            }
            if token_matches(c0.as_str(), "FORWARD") {
                Command::Forward(a0)
            } else if token_matches(c0.as_str(), "BACK") {
                Command::Back(a0)
            } else if token_matches(c0.as_str(), "LEFT") {
                Command::Left(a0)
            } else if token_matches(c0.as_str(), "RIGHT") {
                Command::Right(a0)
            } else if token_matches(c0.as_str(), "SETPENCOLOR") {
                Command::SetPenColor(a0)
            } else if token_matches(c0.as_str(), "TURN") {
                Command::Turn(a0)
            } else if token_matches(c0.as_str(), "SETHEADING") {
                Command::SetHeading(a0)
            } else if token_matches(c0.as_str(), "SETX") {
                Command::SetX(a0)
            } else {
                Command::SetY(a0)
            }
        };
        proof {
            assert(c.dv() == fixed_cmd(c0@, argsv).unwrap());
        }
        ps_push_cmd(st, c);
        return Ok(());
    }
    if str_eq(c0.as_str(), "]") {
        match get_args(c0.as_str(), Some(0), &tokens, 1) {
            Err(e) => {
                return Err(e);
            },
            Ok(_) => {},
        }
        if st.braces == 0 {
            return Err(LogoError::UnmatchedBracket);
        }
        proof {
            assert(st@.stack.len() > 0);
        }
        ps_close(st);
        st.braces = st.braces - 1;
        return Ok(());
    }
    if token_matches(c0.as_str(), "IF") || token_matches(c0.as_str(), "WHILE") {
        let args = match get_args(c0.as_str(), None, &tokens, 1) {
            Err(e) => {
                return Err(e);
            },
            Ok(args) => args,
        };
        let cond = match check_has_left_bracket(c0.as_str(), args) {
            Err(e) => {
                return Err(e);
            },
            Ok(cond) => cond,
        };
        let is_if = token_matches(c0.as_str(), "IF");
        let fr = Frame {
            kind: if is_if {
                FrameKind::IfK(cond)
            } else {
                FrameKind::WhileK(cond)
            },
            cmds: Vec::new(),
        };
        let ghost frv = fr.fv();
        proof {
            assert(frv.cmds =~= Seq::<CmdV>::empty());
        }
        st.stack.push(fr);
        let n2 = st.stack.len();
        proof {
            assert(st.braces < n2);
        }
        st.braces = st.braces + 1;
        proof {
            assert(st@.stack =~= old(st)@.stack.push(frv));
        }
        return Ok(());
    }
    if token_matches(c0.as_str(), "TO") {
        if tokens.len() < 2 {
            return Err(LogoError::MissingProcedureName);
        }
        let name = &tokens[1];
        proof {
            assert(name@ == toks[1]);
        }
        if is_valid_value(name.as_str()) {
            return Err(LogoError::InvalidProcedureName { name: name.clone() });
        }
        let params = match get_args(c0.as_str(), None, &tokens, 2) {
            Err(e) => {
                return Err(e);
            },
            Ok(args) => args,
        };
        let fr = Frame { kind: FrameKind::ToK(name.clone(), params), cmds: Vec::new() };
        let ghost frv = fr.fv();
        proof {
            assert(frv.cmds =~= Seq::<CmdV>::empty());
        }
        st.stack.push(fr);
        let n2 = st.stack.len();
        proof {
            assert(st.ends < n2);
        }
        st.ends = st.ends + 1;
        proof {
            assert(st@.stack =~= old(st)@.stack.push(frv));
        }
        return Ok(());
    }
    if token_matches(c0.as_str(), "END") {
        match get_args(c0.as_str(), Some(0), &tokens, 1) {
            Err(e) => {
                return Err(e);
            },
            Ok(_) => {},
        }
        if st.ends == 0 {
            return Err(LogoError::UnmatchedEnd);
        }
        proof {
            assert(st@.stack.len() > 0);
        }
        ps_close(st);
        st.ends = st.ends - 1;
        return Ok(());
    }
    let args = match get_args(c0.as_str(), None, &tokens, 1) {
        Err(e) => {
            return Err(e);
        },
        Ok(args) => args,
    };
    ps_push_cmd(st, Command::Procedure(c0.clone(), args));
    Ok(())
}

/// Parses the whole list of source lines into a command tree.
pub fn parse_lines(lines: &Vec<String>) -> (r: Result<Vec<Command>, LogoError>)
    ensures
        match r {
            Ok(cmds) => spec_parse_lines(lines.deep_view()) == Ok::<Seq<CmdV>, ErrV>(
                cmds_dv(cmds@),
            ),
            Err(e) => spec_parse_lines(lines.deep_view()) == Err::<Seq<CmdV>, ErrV>(e@),
        },
{
    let ghost lv = lines.deep_view();
    let mut st = ParseState { root: Vec::new(), stack: Vec::new(), braces: 0, ends: 0 };
    proof {
        assert(st@ =~~= init_pstate());
        assert(lv.len() == lines@.len());
    }
    let mut i: usize = 0;
    while i < lines.len()
        invariant
            lv == lines.deep_view(),
            lv.len() == lines@.len(),
            i <= lv.len(),
            pstate_wf(st@),
            parse_all(lv, i as int, st@) == spec_parse_lines(lv),
        decreases lv.len() - i,
    {
        let line = &lines[i];
        proof {
            assert(lv[i as int] == line@);
        }
        match parse_line(&mut st, line.as_str()) {
            Ok(_) => {},
            Err(e) => {
                return Err(e);
            },
        }
        i = i + 1;
    }
    if st.braces != 0 {
        return Err(LogoError::UnclosedBrace);
    }
    if st.ends != 0 {
        return Err(LogoError::UnclosedProcedure);
    }
    Ok(st.root)
}

/// Parses whole source text into a command tree: the lines of the text,
/// folded through the statement parser.
pub fn parse_commands(source: &str) -> (r: Result<Vec<Command>, LogoError>)
    ensures
        match r {
            Ok(cmds) => spec_parse_source(source@) == Ok::<Seq<CmdV>, ErrV>(cmds_dv(cmds@)),
            Err(e) => spec_parse_source(source@) == Err::<Seq<CmdV>, ErrV>(e@),
        },
{
    let lines = crate::text::split_lines(source);
    parse_lines(&lines)
}

} // verus!
