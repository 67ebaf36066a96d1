use minicc::codegen::produce_assembly;
use minicc::compile;
use minicc::data_types::{Expr, Func, Prog, Stmt, UnaryOp};
use minicc::lex::lex;
use minicc::parse::parse;
use minicc::semantics::evaluate;
use minicc::CompileError;

fn program_of(source: &str) -> Prog {
    parse(lex(source).unwrap()).unwrap()
}

#[test]
fn pipeline_returns_the_literal() {
    // int f() { return N; } evaluates to N
    assert_eq!(evaluate(&program_of("int f() { return 0; }")), 0);
    assert_eq!(evaluate(&program_of("int f() { return 42; }")), 42);
    assert_eq!(
        evaluate(&program_of("int f() { return 4294967295; }")),
        4294967295
    );
}

#[test]
fn compile_simple_program() {
    let out = compile("int main() { return 3; }").unwrap();
    assert_eq!(out, ".globl main\nmain:\n\tmov\t$3, %rax\n\tret\n");
}

#[test]
fn compile_negation() {
    // the program returns the two's-complement negation of 5
    let out = compile("int main() { return -5; }").unwrap();
    assert_eq!(out, ".globl main\nmain:\n\tmov\t$5, %rax\n\tneg\t%rax\n\tret\n");
    assert_eq!(evaluate(&program_of("int main() { return -5; }")), 4294967291);
}

#[test]
fn compile_logical_negation_of_zero() {
    // the program returns 1
    let out = compile("int main() { return !0; }").unwrap();
    assert_eq!(
        out,
        ".globl main\nmain:\n\tmov\t$0, %rax\n\tcmp\t$0, %rax\n\tmov\t$0, %rax\n\tsete\t%al\n\tret\n"
    );
    assert_eq!(evaluate(&program_of("int main() { return !0; }")), 1);
}

#[test]
fn compile_bitwise_complement_of_zero() {
    // the program returns the bitwise complement of 0
    let out = compile("int main() { return ~0; }").unwrap();
    assert_eq!(out, ".globl main\nmain:\n\tmov\t$0, %rax\n\tnot\t%rax\n\tret\n");
    assert_eq!(evaluate(&program_of("int main() { return ~0; }")), 4294967295);
}

#[test]
fn operator_chain_is_applied_from_the_literal_outward() {
    // -~!5: logical negation first, then complement, then negation
    let out = compile("int main() { return -~!5; }").unwrap();
    assert_eq!(
        out,
        ".globl main\nmain:\n\tmov\t$5, %rax\n\tcmp\t$0, %rax\n\tmov\t$0, %rax\n\tsete\t%al\n\tnot\t%rax\n\tneg\t%rax\n\tret\n"
    );
    // !5 = 0, ~0 = 4294967295, -(4294967295) = 1
    assert_eq!(evaluate(&program_of("int main() { return -~!5; }")), 1);
}

#[test]
fn evaluate_deep_chain() {
    // !~-3: -3 wraps to 4294967293, ~ gives 2, ! gives 0
    assert_eq!(evaluate(&program_of("int main() { return !~-3; }")), 0);
}

#[test]
fn evaluate_negation_of_zero() {
    assert_eq!(evaluate(&program_of("int main() { return -0; }")), 0);
}

#[test]
fn evaluate_logical_negation_of_nonzero() {
    assert_eq!(evaluate(&program_of("int main() { return !7; }")), 0);
}

#[test]
fn produce_assembly_on_built_tree() {
    let prog = Prog::Prog(Func::Func(
        String::from("answer"),
        Stmt::Return(Expr::UnaryOp(
            UnaryOp::BitComp,
            Box::new(Expr::IntLiteral(41)),
        )),
    ));
    let out = produce_assembly(&prog);
    assert_eq!(
        out,
        ".globl answer\nanswer:\n\tmov\t$41, %rax\n\tnot\t%rax\n\tret\n"
    );
}

#[test]
fn compile_large_literal_renders_all_digits() {
    let out = compile("int big() { return 1234567890; }").unwrap();
    assert_eq!(out, ".globl big\nbig:\n\tmov\t$1234567890, %rax\n\tret\n");
}

#[test]
fn compile_missing_semicolon_emits_nothing() {
    // a parse error, before any assembly is produced
    let err = compile("int main() { return 3 }").unwrap_err();
    assert!(matches!(err, CompileError::Parse(_)));
}

#[test]
fn compile_bad_keyword_fails_with_parse_error() {
    let err = compile("long main() { return 3; }").unwrap_err();
    assert!(matches!(err, CompileError::Parse(_)));
}

#[test]
fn compile_bad_character_fails_with_lex_error() {
    let err = compile("int main() { return 3 + 4; }").unwrap_err();
    match err {
        CompileError::Lex(le) => {
            assert_eq!(le.ch, '+');
        },
        CompileError::Parse(_) => panic!("expected a lexical error"),
    }
}

#[test]
fn compile_whitespace_variations() {
    let out = compile("int\tmain\n(\r) {\n\treturn\t7;\n}\n").unwrap();
    assert_eq!(out, ".globl main\nmain:\n\tmov\t$7, %rax\n\tret\n");
}
