//! Code generation: walk the validated abstract syntax tree and emit the
//! x86-64 assembly text realizing the single return computation.
//!
//! The emitter descends through the chain of unary operators, pushing each
//! onto an explicit stack, loads the literal into the return register, and
//! then pops the stack so the operator instructions come out
//! innermost-first — the operator closest to the literal in source order
//! is applied first, matching standard prefix-unary evaluation.
use vstd::prelude::*;
use vstd::string::StringExecFns;

use crate::data_types::{push_char, Expr, Func, Prog, Stmt, UnaryOp};
use crate::semantics::{literal_of, ops_outward};

verus! {

/// The decimal digit character for a value below ten.
pub open spec fn digit_char(d: nat) -> char
    recommends
        d < 10,
{
    if d == 0 {
        '0'
    } else if d == 1 {
        '1'
    } else if d == 2 {
        '2'
    } else if d == 3 {
        '3'
    } else if d == 4 {
        '4'
    } else if d == 5 {
        '5'
    } else if d == 6 {
        '6'
    } else if d == 7 {
        '7'
    } else if d == 8 {
        '8'
    } else {
        '9'
    }
}

/// The decimal rendering of a number, most significant digit first.
pub open spec fn dec_str(n: nat) -> Seq<char>
    decreases n,
{
    if n < 10 {
        seq![digit_char(n)]
    } else {
        dec_str(n / 10).push(digit_char(n % 10))
    }
}

/// The instruction text emitted for one operator: negate, bitwise-not,
/// or the compare-and-set-if-zero sequence for logical negation.
pub open spec fn op_text(op: UnaryOp) -> Seq<char> {
    match op {
        UnaryOp::Negation => "\tneg\t%rax\n"@,
        UnaryOp::BitComp => "\tnot\t%rax\n"@,
        UnaryOp::LogNeg => "\tcmp\t$0, %rax\n\tmov\t$0, %rax\n\tsete\t%al\n"@,
    }
}

/// The instruction text for a sequence of operators, applied in order.
pub open spec fn ops_text(ops: Seq<UnaryOp>) -> Seq<char>
    decreases ops.len(),
{
    if ops.len() == 0 {
        Seq::empty()
    } else {
        op_text(ops[0]) + ops_text(ops.skip(1))
    }
}

/// The complete assembly text for a program: the global-export directive
/// and the entry label named after the function, the load of the literal
/// into the return register, the operator instructions innermost-first,
/// and the return instruction.
pub open spec fn asm_of_prog(p: Prog) -> Seq<char> {
    match p {
        Prog::Prog(Func::Func(name, Stmt::Return(e))) => ".globl "@ + name@ + "\n"@ + name@
            + ":\n"@ + "\tmov\t$"@ + dec_str(literal_of(e) as nat) + ", %rax\n"@ + ops_text(
            ops_outward(e),
        ) + "\tret\n"@,
    }
}

fn digit_char_exec(d: u32) -> (c: char)
    requires
        d < 10,
    ensures
        c == digit_char(d as nat),
{
    match d {
        0 => '0',
        1 => '1',
        2 => '2',
        3 => '3',
        4 => '4',
        5 => '5',
        6 => '6',
        7 => '7',
        8 => '8',
        _ => '9',
    }
}

/// Render a 32-bit value in decimal.
fn u32_to_string(n: u32) -> (s: String)
    ensures
        s@ == dec_str(n as nat),
    decreases n,
{
    if n < 10 {
        let mut s = String::new();
        push_char(&mut s, digit_char_exec(n));
        proof {
            assert(Seq::<char>::empty().push(digit_char(n as nat)) =~= seq![
                digit_char(n as nat),
            ]);
        }
        s
    } else {
        let mut s = u32_to_string(n / 10);
        push_char(&mut s, digit_char_exec(n % 10));
        s
    }
}

/// Push the operators of `e` onto the stack in descent order (outermost
/// first), and return the literal at the bottom.
fn collect_ops(e: &Expr, ops: &mut Vec<UnaryOp>) -> (lit: u32)
    ensures
        final(ops)@ == old(ops)@ + ops_outward(*e).reverse(),
        lit == literal_of(*e),
    decreases *e,
{
    match e {
        Expr::IntLiteral(v) => {
            proof {
                assert(ops_outward(*e).reverse() =~= Seq::<UnaryOp>::empty());
                assert(ops@ + ops_outward(*e).reverse() =~= ops@);
            }
            *v
        },
        Expr::UnaryOp(op, sub) => {
            ops.push(*op);
            let lit = collect_ops(&**sub, ops);
            proof {
                assert(ops_outward(*e).reverse() =~= seq![*op] + ops_outward(**sub).reverse());
                assert(old(ops)@.push(*op) + ops_outward(**sub).reverse() =~= old(ops)@ + (seq![
                    *op,
                ] + ops_outward(**sub).reverse()));
            }
            lit
        },
    }
}

proof fn lemma_ops_text_snoc(ops: Seq<UnaryOp>, m: int)
    requires
        0 <= m < ops.len(),
    ensures
        ops_text(ops.take(m + 1)) == ops_text(ops.take(m)) + op_text(ops[m]),
    decreases m,
{
    if m == 0 {
        assert(ops.take(1)[0] == ops[0]);
        assert(ops.take(1).skip(1) =~= Seq::<UnaryOp>::empty());
        assert(ops_text(Seq::<UnaryOp>::empty()) == Seq::<char>::empty());
        assert(ops.take(0).len() == 0);
        assert(ops_text(ops.take(0)) == Seq::<char>::empty());
        assert(ops_text(ops.take(1)) == op_text(ops[0]) + Seq::<char>::empty());
        assert(op_text(ops[0]) + Seq::<char>::empty() =~= op_text(ops[0]));
        assert(Seq::<char>::empty() + op_text(ops[0]) =~= op_text(ops[0]));
    } else {
        lemma_ops_text_snoc(ops.skip(1), m - 1);
        assert(ops.take(m + 1)[0] == ops[0]);
        assert(ops.take(m)[0] == ops[0]);
        assert(ops.take(m + 1).skip(1) =~= ops.skip(1).take(m));
        assert(ops.take(m).skip(1) =~= ops.skip(1).take(m - 1));
        assert(ops.skip(1)[m - 1] == ops[m]);
        assert(ops_text(ops.take(m + 1)) == op_text(ops[0]) + ops_text(ops.skip(1).take(m)));
        assert(ops_text(ops.take(m)) == op_text(ops[0]) + ops_text(ops.skip(1).take(m - 1)));
        assert(op_text(ops[0]) + (ops_text(ops.skip(1).take(m - 1)) + op_text(ops[m])) =~= (
        op_text(ops[0]) + ops_text(ops.skip(1).take(m - 1))) + op_text(ops[m]));
    }
}

/// Emit the assembly text for a validated program.
///
/// The emitted text is the global-export directive and label for the
/// function name, one `mov` loading the literal, the value
/// transformation of each operator from the innermost outward, and a
/// final `ret`.
pub fn produce_assembly(p: &Prog) -> (out: String)
    ensures
        out@ == asm_of_prog(*p),
{
    let (name, e): (&String, &Expr) = match p {
        Prog::Prog(Func::Func(name, Stmt::Return(e))) => (name, e),
    };
    let mut out = String::new();
    out.append(".globl ");
    out.append(name.as_str());
    out.append("\n");
    out.append(name.as_str());
    out.append(":\n");
    out.append("\tmov\t$");

    // descend to the literal, pushing the operators onto an explicit stack
    let mut ops: Vec<UnaryOp> = Vec::new();
    let lit = collect_ops(e, &mut ops);
    let lit_str = u32_to_string(lit);
    out.append(lit_str.as_str());
    out.append(", %rax\n");

    let ghost all_ops = ops_outward(*e);
    let ghost prefix = out@;
    proof {
        assert(Seq::<UnaryOp>::empty() + all_ops.reverse() =~= all_ops.reverse());
        assert(ops@ == all_ops.reverse());
        assert(ops_text(all_ops.take(0)) == Seq::<char>::empty());
        assert(prefix + Seq::<char>::empty() =~= prefix);
    }
    // pop the stack: the operator closest to the literal is emitted first
    let mut k: usize = ops.len();
    while k > 0
        invariant
            k <= ops@.len(),
            ops@ == all_ops.reverse(),
            out@ == prefix + ops_text(all_ops.take(ops@.len() - k)),
        decreases k,
    {
        let ghost m = all_ops.len() - k;
        proof {
            assert(ops@[k - 1] == all_ops[m]);
            lemma_ops_text_snoc(all_ops, m);
        }
        let op = ops[k - 1];
        match op {
            UnaryOp::Negation => out.append("\tneg\t%rax\n"),
            UnaryOp::BitComp => out.append("\tnot\t%rax\n"),
            UnaryOp::LogNeg => out.append("\tcmp\t$0, %rax\n\tmov\t$0, %rax\n\tsete\t%al\n"),
        }
        proof {
            assert((prefix + ops_text(all_ops.take(m))) + op_text(all_ops[m]) =~= prefix + (
            ops_text(all_ops.take(m)) + op_text(all_ops[m])));
        }
        k -= 1;
    }
    proof {
        assert(all_ops.take(all_ops.len() as int) =~= all_ops);
    }
    out.append("\tret\n");
    proof {
        assert(out@ =~= asm_of_prog(*p));
    }
    out
}

} // verus!
