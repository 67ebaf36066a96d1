//! The value semantics of the language: evaluation of the returned
//! expression in 32-bit unsigned arithmetic with wraparound.
//!
//! This is the contract the emitted assembly must realize: starting from
//! the literal, each operator transformation is applied in order from the
//! innermost (closest to the literal) outward.
use vstd::prelude::*;

use crate::data_types::{prog_expr, Expr, Func, Prog, Stmt, Token, UnaryOp};
use crate::parse::is_tokens_of_prog;

verus! {

/// The value transformation of one unary operator on a 32-bit value:
/// two's-complement negation, bitwise complement, or logical negation
/// (1 exactly when the value is 0, else 0).
pub open spec fn apply_op(op: UnaryOp, v: u32) -> u32 {
    match op {
        UnaryOp::Negation => if v == 0 {
            0u32
        } else {
            (0x1_0000_0000 - v as int) as u32
        },
        UnaryOp::BitComp => !v,
        UnaryOp::LogNeg => if v == 0 {
            1u32
        } else {
            0u32
        },
    }
}

/// The value of an expression: the literal, transformed by each operator
/// from the innermost outward.
pub open spec fn eval_expr(e: Expr) -> u32
    decreases e,
{
    match e {
        Expr::IntLiteral(v) => v,
        Expr::UnaryOp(op, sub) => apply_op(op, eval_expr(*sub)),
    }
}

/// The value the program's one function returns.
pub open spec fn prog_value(p: Prog) -> u32 {
    eval_expr(prog_expr(p))
}

/// The operators of an expression ordered from the literal outward: the
/// operator closest to the literal in source order comes first.
pub open spec fn ops_outward(e: Expr) -> Seq<UnaryOp>
    decreases e,
{
    match e {
        Expr::IntLiteral(_) => Seq::empty(),
        Expr::UnaryOp(op, sub) => ops_outward(*sub).push(op),
    }
}

/// The integer literal at the bottom of an expression.
pub open spec fn literal_of(e: Expr) -> u32
    decreases e,
{
    match e {
        Expr::IntLiteral(v) => v,
        Expr::UnaryOp(_, sub) => literal_of(*sub),
    }
}

/// Apply a sequence of operator transformations, in order, to a value.
pub open spec fn run_ops(ops: Seq<UnaryOp>, v: u32) -> u32
    decreases ops.len(),
{
    if ops.len() == 0 {
        v
    } else {
        run_ops(ops.skip(1), apply_op(ops[0], v))
    }
}

proof fn lemma_run_ops_push(ops: Seq<UnaryOp>, op: UnaryOp, v: u32)
    ensures
        run_ops(ops.push(op), v) == apply_op(op, run_ops(ops, v)),
    decreases ops.len(),
{
    if ops.len() == 0 {
        assert(ops.push(op)[0] == op);
        assert(ops.push(op).skip(1) =~= Seq::<UnaryOp>::empty());
        assert(run_ops(ops.push(op), v) == run_ops(Seq::<UnaryOp>::empty(), apply_op(op, v)));
    } else {
        assert(ops.push(op)[0] == ops[0]);
        assert(ops.push(op).skip(1) =~= ops.skip(1).push(op));
        lemma_run_ops_push(ops.skip(1), op, apply_op(ops[0], v));
        assert(run_ops(ops.push(op), v) == run_ops(ops.skip(1).push(op), apply_op(ops[0], v)));
    }
}

/// Applying the operator sequence innermost-first to the literal computes
/// the expression's value: the ordering the code generator emits is the
/// standard prefix-unary evaluation order.
pub proof fn lemma_ops_outward_eval(e: Expr)
    ensures
        run_ops(ops_outward(e), literal_of(e)) == eval_expr(e),
    decreases e,
{
    match e {
        Expr::IntLiteral(_) => {},
        Expr::UnaryOp(op, sub) => {
            lemma_ops_outward_eval(*sub);
            lemma_run_ops_push(ops_outward(*sub), op, literal_of(*sub));
        },
    }
}

/// A program parsed from `int <name> ( ) { return <n> ; }` evaluates to
/// exactly the literal `n`.
pub proof fn lemma_literal_program(ts: Seq<Token>, p: Prog, n: u32)
    requires
        is_tokens_of_prog(ts, p),
        ts.len() == 9,
        ts[6] == Token::IntLiteral(n),
    ensures
        prog_value(p) == n,
{
    match p {
        Prog::Prog(Func::Func(_, Stmt::Return(e))) => {
            let stmt_toks = ts.subrange(5, ts.len() - 1);
            let expr_toks = stmt_toks.subrange(1, stmt_toks.len() - 1);
            assert(expr_toks =~= ts.subrange(6, 7));
            assert(expr_toks[0] == ts[6]);
            match e {
                Expr::IntLiteral(_) => {},
                Expr::UnaryOp(_, _) => {},
            }
        },
    }
}

fn apply_op_exec(op: UnaryOp, v: u32) -> (r: u32)
    ensures
        r == apply_op(op, v),
{
    match op {
        UnaryOp::Negation => if v == 0 {
            0
        } else {
            (u32::MAX - v) + 1
        },
        UnaryOp::BitComp => !v,
        UnaryOp::LogNeg => if v == 0 {
            1
        } else {
            0
        },
    }
}

fn eval_expr_exec(e: &Expr) -> (r: u32)
    ensures
        r == eval_expr(*e),
    decreases *e,
{
    match e {
        Expr::IntLiteral(v) => *v,
        Expr::UnaryOp(op, sub) => {
            let inner = eval_expr_exec(&**sub);
            apply_op_exec(*op, inner)
        },
    }
}

/// The value the compiled program returns, computed directly on the
/// abstract syntax tree.
pub fn evaluate(p: &Prog) -> (r: u32)
    ensures
        r == prog_value(*p),
{
    match p {
        Prog::Prog(f) => match f {
            Func::Func(_, st) => match st {
                Stmt::Return(e) => eval_expr_exec(e),
            },
        },
    }
}

} // verus!
