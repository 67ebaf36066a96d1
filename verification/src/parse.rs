//! Recursive-descent parsing with one-token lookahead: one routine per
//! grammar rule, each threading an explicit cursor (an index into the
//! token sequence) forward past the tokens it consumes.
//!
//! The grammar:
//!
//! ```text
//! Program    := Function
//! Function   := "int" Identifier "(" ")" "{" Statement "}"
//! Statement  := "return" Expression ";"
//! Expression := IntegerLiteral | UnaryOperator Expression
//! ```
//!
//! Each routine is proved sound (what it builds renders back to exactly
//! the tokens it consumed) and complete (whenever a rendering exists, it
//! is found); the first mismatch anywhere aborts the whole parse with a
//! `ParseError`, and no partial tree is ever returned.
use vstd::prelude::*;
use vstd::string::StringExecFns;

use crate::data_types::{
    func_equiv, prog_equiv, tok_equiv, toks_equiv, Expected, Expr, Func, ParseError, Prog, Stmt,
    Token,
};

verus! {

/// `ts` is exactly the token rendering of the expression `e`: the chain
/// of prefix operators, outermost first, ending in the integer literal.
pub open spec fn is_tokens_of_expr(ts: Seq<Token>, e: Expr) -> bool
    decreases e,
{
    match e {
        Expr::IntLiteral(v) => ts.len() == 1 && ts[0] == Token::IntLiteral(v),
        Expr::UnaryOp(op, sub) => ts.len() >= 1 && ts[0] == Token::UnaryOp(op)
            && is_tokens_of_expr(ts.skip(1), *sub),
    }
}

/// `ts` is exactly the token rendering of the statement:
/// `return Expression ;`.
pub open spec fn is_tokens_of_stmt(ts: Seq<Token>, st: Stmt) -> bool {
    match st {
        Stmt::Return(e) => {
            &&& ts.len() >= 3
            &&& ts[0] matches Token::Keyword(k) && k@ == "return"@
            &&& ts.last() == Token::Semicolon
            &&& is_tokens_of_expr(ts.subrange(1, ts.len() - 1), e)
        },
    }
}

/// `ts` is exactly the token rendering of the function:
/// `int Identifier ( ) { Statement }`.
pub open spec fn is_tokens_of_func(ts: Seq<Token>, f: Func) -> bool {
    match f {
        Func::Func(name, st) => {
            &&& ts.len() >= 9
            &&& ts[0] matches Token::Keyword(k) && k@ == "int"@
            &&& ts[1] matches Token::Identifier(id) && id@ == name@
            &&& ts[2] == Token::OpenParenthesis
            &&& ts[3] == Token::CloseParenthesis
            &&& ts[4] == Token::OpenBrace
            &&& ts.last() == Token::CloseBrace
            &&& is_tokens_of_stmt(ts.subrange(5, ts.len() - 1), st)
        },
    }
}

/// `ts` is exactly the token rendering of the whole program.
pub open spec fn is_tokens_of_prog(ts: Seq<Token>, p: Prog) -> bool {
    match p {
        Prog::Prog(f) => is_tokens_of_func(ts, f),
    }
}

/// Parse an expression starting at cursor `i`: an integer literal, or a
/// unary operator followed by a deeper expression.
pub fn parse_expr(toks: &Vec<Token>, i: usize) -> (r: Result<(usize, Expr), ParseError>)
    requires
        i <= toks@.len(),
    ensures
        r matches Ok(p) ==> i <= p.0 <= toks@.len() && is_tokens_of_expr(
            toks@.subrange(i as int, p.0 as int),
            p.1,
        ),
        forall|j: int, e: Expr|
            i <= j <= toks@.len() && is_tokens_of_expr(toks@.subrange(i as int, j), e)
                ==> (r matches Ok(p) && p.0 == j && p.1 == e),
    decreases toks@.len() - i,
{
    if i == toks.len() {
        proof {
            assert forall|j: int, e: Expr|
                i <= j <= toks@.len() && is_tokens_of_expr(
                    toks@.subrange(i as int, j),
                    e,
                ) implies false by {
                assert(toks@.subrange(i as int, j).len() == 0);
            }
        }
        return Err(ParseError { pos: i, expected: Expected::Expression, found: None });
    }
    match &toks[i] {
        Token::IntLiteral(v) => {
            let val = *v;
            proof {
                let sub1 = toks@.subrange(i as int, i as int + 1);
                assert(sub1 =~= seq![toks@[i as int]]);
                assert(is_tokens_of_expr(sub1, Expr::IntLiteral(val)));
                assert forall|j: int, e: Expr|
                    i <= j <= toks@.len() && is_tokens_of_expr(
                        toks@.subrange(i as int, j),
                        e,
                    ) implies j == i + 1 && e == Expr::IntLiteral(val) by {
                    let sub = toks@.subrange(i as int, j);
                    assert(sub[0] == toks@[i as int]);
                    match e {
                        Expr::IntLiteral(_) => {
                            assert(sub.len() == 1);
                        },
                        Expr::UnaryOp(_, _) => {},
                    }
                }
            }
            Ok((i + 1, Expr::IntLiteral(val)))
        },
        Token::UnaryOp(op) => {
            let o = *op;
            match parse_expr(toks, i + 1) {
                Ok((j, sub)) => {
                    proof {
                        let outer = toks@.subrange(i as int, j as int);
                        assert(outer[0] == toks@[i as int]);
                        assert(outer.skip(1) =~= toks@.subrange(i as int + 1, j as int));
                        assert forall|j2: int, e2: Expr|
                            i <= j2 <= toks@.len() && is_tokens_of_expr(
                                toks@.subrange(i as int, j2),
                                e2,
                            ) implies j2 == j && (e2 matches Expr::UnaryOp(op2, s2) && op2 == o
                            && *s2 == sub) by {
                            let sub_r = toks@.subrange(i as int, j2);
                            assert(sub_r[0] == toks@[i as int]);
                            match e2 {
                                Expr::IntLiteral(_) => {},
                                Expr::UnaryOp(_, s2) => {
                                    assert(sub_r.skip(1) =~= toks@.subrange(i as int + 1, j2));
                                    assert(is_tokens_of_expr(
                                        toks@.subrange(i as int + 1, j2),
                                        *s2,
                                    ));
                                },
                            }
                        }
                    }
                    Ok((j, Expr::UnaryOp(o, Box::new(sub))))
                },
                Err(e) => {
                    proof {
                        assert forall|j2: int, e2: Expr|
                            i <= j2 <= toks@.len() && is_tokens_of_expr(
                                toks@.subrange(i as int, j2),
                                e2,
                            ) implies false by {
                            let sub_r = toks@.subrange(i as int, j2);
                            assert(sub_r[0] == toks@[i as int]);
                            match e2 {
                                Expr::IntLiteral(_) => {},
                                Expr::UnaryOp(_, s2) => {
                                    assert(sub_r.skip(1) =~= toks@.subrange(i as int + 1, j2));
                                    assert(is_tokens_of_expr(
                                        toks@.subrange(i as int + 1, j2),
                                        *s2,
                                    ));
                                },
                            }
                        }
                    }
                    Err(e)
                },
            }
        },
        _ => {
            proof {
                assert forall|j: int, e: Expr|
                    i <= j <= toks@.len() && is_tokens_of_expr(
                        toks@.subrange(i as int, j),
                        e,
                    ) implies false by {
                    assert(toks@.subrange(i as int, j)[0] == toks@[i as int]);
                }
            }
            Err(
                ParseError {
                    pos: i,
                    expected: Expected::Expression,
                    found: Some(toks[i].clone()),
                },
            )
        },
    }
}

/// Every expression rendering holds at least its integer literal.
proof fn lemma_expr_tokens_nonempty(ts: Seq<Token>, e: Expr)
    requires
        is_tokens_of_expr(ts, e),
    ensures
        ts.len() >= 1,
{
    match e {
        Expr::IntLiteral(_) => {},
        Expr::UnaryOp(_, _) => {},
    }
}

/// A token sequence renders at most one expression.
pub proof fn lemma_expr_tokens_unique(ts: Seq<Token>, e1: Expr, e2: Expr)
    requires
        is_tokens_of_expr(ts, e1),
        is_tokens_of_expr(ts, e2),
    ensures
        e1 == e2,
    decreases e1,
{
    match (e1, e2) {
        (Expr::IntLiteral(_), Expr::IntLiteral(_)) => {},
        (Expr::UnaryOp(_, s1), Expr::UnaryOp(_, s2)) => {
            lemma_expr_tokens_unique(ts.skip(1), *s1, *s2);
        },
        _ => {},
    }
}

fn kw_is(k: &String, lit: &str) -> (r: bool)
    ensures
        r == (k@ == lit@),
{
    let s = String::from_str(lit);
    *k == s
}

/// Parse a statement starting at cursor `i`: the keyword `return`, an
/// expression, and the terminating semicolon.
pub fn parse_statement(toks: &Vec<Token>, i: usize) -> (r: Result<(usize, Stmt), ParseError>)
    requires
        i <= toks@.len(),
    ensures
        r matches Ok(p) ==> i <= p.0 <= toks@.len() && is_tokens_of_stmt(
            toks@.subrange(i as int, p.0 as int),
            p.1,
        ),
        forall|j: int, st: Stmt|
            i <= j <= toks@.len() && is_tokens_of_stmt(toks@.subrange(i as int, j), st)
                ==> (r matches Ok(p) && p.0 == j && p.1 == st),
{
    if i == toks.len() {
        proof {
            assert forall|j: int, st: Stmt|
                i <= j <= toks@.len() && is_tokens_of_stmt(
                    toks@.subrange(i as int, j),
                    st,
                ) implies false by {
                assert(toks@.subrange(i as int, j).len() == 0);
            }
        }
        return Err(ParseError { pos: i, expected: Expected::KeywordReturn, found: None });
    }
    let kw_ok = match &toks[i] {
        Token::Keyword(k) => kw_is(k, "return"),
        _ => false,
    };
    if !kw_ok {
        proof {
            assert forall|j: int, st: Stmt|
                i <= j <= toks@.len() && is_tokens_of_stmt(
                    toks@.subrange(i as int, j),
                    st,
                ) implies false by {
                assert(toks@.subrange(i as int, j)[0] == toks@[i as int]);
            }
        }
        return Err(
            ParseError {
                pos: i,
                expected: Expected::KeywordReturn,
                found: Some(toks[i].clone()),
            },
        );
    }
    let (j, e) = match parse_expr(toks, i + 1) {
        Ok(p) => p,
        Err(err) => {
            proof {
                assert forall|j2: int, st: Stmt|
                    i <= j2 <= toks@.len() && is_tokens_of_stmt(
                        toks@.subrange(i as int, j2),
                        st,
                    ) implies false by {
                    let sub = toks@.subrange(i as int, j2);
                    match st {
                        Stmt::Return(e2) => {
                            assert(sub.subrange(1, sub.len() - 1) =~= toks@.subrange(
                                i as int + 1,
                                j2 - 1,
                            ));
                            assert(is_tokens_of_expr(toks@.subrange(i as int + 1, j2 - 1), e2));
                        },
                    }
                }
            }
            return Err(err);
        },
    };
    proof {
        lemma_expr_tokens_nonempty(toks@.subrange(i as int + 1, j as int), e);
        assert forall|j2: int, st: Stmt|
            i <= j2 <= toks@.len() && is_tokens_of_stmt(
                toks@.subrange(i as int, j2),
                st,
            ) implies j2 == j + 1 && (st matches Stmt::Return(e2) && e2 == e) && toks@[j as int]
            == Token::Semicolon by {
            let sub = toks@.subrange(i as int, j2);
            match st {
                Stmt::Return(e2) => {
                    assert(sub.subrange(1, sub.len() - 1) =~= toks@.subrange(
                        i as int + 1,
                        j2 - 1,
                    ));
                    assert(is_tokens_of_expr(toks@.subrange(i as int + 1, j2 - 1), e2));
                    assert(sub.last() == toks@[j2 - 1]);
                },
            }
        }
    }
    if j == toks.len() {
        return Err(ParseError { pos: j, expected: Expected::Semicolon, found: None });
    }
    let semi = match &toks[j] {
        Token::Semicolon => true,
        _ => false,
    };
    if !semi {
        return Err(
            ParseError {
                pos: j,
                expected: Expected::Semicolon,
                found: Some(toks[j].clone()),
            },
        );
    }
    proof {
        let sub = toks@.subrange(i as int, j as int + 1);
        assert(sub[0] == toks@[i as int]);
        assert(sub.last() == toks@[j as int]);
        assert(sub.subrange(1, sub.len() - 1) =~= toks@.subrange(i as int + 1, j as int));
        assert(is_tokens_of_stmt(sub, Stmt::Return(e)));
    }
    Ok((j + 1, Stmt::Return(e)))
}

/// Parse a function starting at cursor `i`: the keyword `int`, the
/// function name, `( ) {`, the statement, and the closing brace.
pub fn parse_function(toks: &Vec<Token>, i: usize) -> (r: Result<(usize, Func), ParseError>)
    requires
        i <= toks@.len(),
    ensures
        r matches Ok(p) ==> i <= p.0 <= toks@.len() && is_tokens_of_func(
            toks@.subrange(i as int, p.0 as int),
            p.1,
        ),
        forall|j: int, f: Func|
            i <= j <= toks@.len() && is_tokens_of_func(toks@.subrange(i as int, j), f)
                ==> (r matches Ok(p) && p.0 == j && func_equiv(p.1, f)),
{
    let n = toks.len();
    // the five fixed opening tokens: "int", the name, "(", ")", "{"
    if i == n {
        return Err(ParseError { pos: i, expected: Expected::KeywordInt, found: None });
    }
    let kw_ok = match &toks[i] {
        Token::Keyword(k) => kw_is(k, "int"),
        _ => false,
    };
    if !kw_ok {
        proof {
            assert forall|j: int, f: Func|
                i <= j <= toks@.len() && is_tokens_of_func(
                    toks@.subrange(i as int, j),
                    f,
                ) implies false by {
                assert(toks@.subrange(i as int, j)[0] == toks@[i as int]);
            }
        }
        return Err(
            ParseError { pos: i, expected: Expected::KeywordInt, found: Some(toks[i].clone()) },
        );
    }
    if i + 1 == n {
        return Err(ParseError { pos: i + 1, expected: Expected::FunctionName, found: None });
    }
    let name = match &toks[i + 1] {
        Token::Identifier(id) => id.clone(),
        _ => {
            proof {
                assert forall|j: int, f: Func|
                    i <= j <= toks@.len() && is_tokens_of_func(
                        toks@.subrange(i as int, j),
                        f,
                    ) implies false by {
                    assert(toks@.subrange(i as int, j)[1] == toks@[i as int + 1]);
                }
            }
            return Err(
                ParseError {
                    pos: i + 1,
                    expected: Expected::FunctionName,
                    found: Some(toks[i + 1].clone()),
                },
            );
        },
    };
    if i + 2 == n {
        return Err(ParseError { pos: i + 2, expected: Expected::OpenParenthesis, found: None });
    }
    let open_paren = match &toks[i + 2] {
        Token::OpenParenthesis => true,
        _ => false,
    };
    if !open_paren {
        proof {
            assert forall|j: int, f: Func|
                i <= j <= toks@.len() && is_tokens_of_func(
                    toks@.subrange(i as int, j),
                    f,
                ) implies false by {
                assert(toks@.subrange(i as int, j)[2] == toks@[i as int + 2]);
            }
        }
        return Err(
            ParseError {
                pos: i + 2,
                expected: Expected::OpenParenthesis,
                found: Some(toks[i + 2].clone()),
            },
        );
    }
    if i + 3 == n {
        return Err(ParseError { pos: i + 3, expected: Expected::CloseParenthesis, found: None });
    }
    let close_paren = match &toks[i + 3] {
        Token::CloseParenthesis => true,
        _ => false,
    };
    if !close_paren {
        proof {
            assert forall|j: int, f: Func|
                i <= j <= toks@.len() && is_tokens_of_func(
                    toks@.subrange(i as int, j),
                    f,
                ) implies false by {
                assert(toks@.subrange(i as int, j)[3] == toks@[i as int + 3]);
            }
        }
        return Err(
            ParseError {
                pos: i + 3,
                expected: Expected::CloseParenthesis,
                found: Some(toks[i + 3].clone()),
            },
        );
    }
    if i + 4 == n {
        return Err(ParseError { pos: i + 4, expected: Expected::OpenBrace, found: None });
    }
    let open_brace = match &toks[i + 4] {
        Token::OpenBrace => true,
        _ => false,
    };
    if !open_brace {
        proof {
            assert forall|j: int, f: Func|
                i <= j <= toks@.len() && is_tokens_of_func(
                    toks@.subrange(i as int, j),
                    f,
                ) implies false by {
                assert(toks@.subrange(i as int, j)[4] == toks@[i as int + 4]);
            }
        }
        return Err(
            ParseError {
                pos: i + 4,
                expected: Expected::OpenBrace,
                found: Some(toks[i + 4].clone()),
            },
        );
    }
    let (j, st) = match parse_statement(toks, i + 5) {
        Ok(p) => p,
        Err(err) => {
            proof {
                assert forall|j2: int, f: Func|
                    i <= j2 <= toks@.len() && is_tokens_of_func(
                        toks@.subrange(i as int, j2),
                        f,
                    ) implies false by {
                    let sub = toks@.subrange(i as int, j2);
                    match f {
                        Func::Func(_, s2) => {
                            assert(sub.subrange(5, sub.len() - 1) =~= toks@.subrange(
                                i as int + 5,
                                j2 - 1,
                            ));
                            assert(is_tokens_of_stmt(toks@.subrange(i as int + 5, j2 - 1), s2));
                        },
                    }
                }
            }
            return Err(err);
        },
    };
    proof {
        assert forall|j2: int, f: Func|
            i <= j2 <= toks@.len() && is_tokens_of_func(
                toks@.subrange(i as int, j2),
                f,
            ) implies j2 == j + 1 && (f matches Func::Func(n2, s2) && n2@ == name@ && s2 == st)
            && toks@[j as int] == Token::CloseBrace by {
            let sub = toks@.subrange(i as int, j2);
            match f {
                Func::Func(_, s2) => {
                    assert(sub.subrange(5, sub.len() - 1) =~= toks@.subrange(
                        i as int + 5,
                        j2 - 1,
                    ));
                    assert(is_tokens_of_stmt(toks@.subrange(i as int + 5, j2 - 1), s2));
                    assert(sub.last() == toks@[j2 - 1]);
                    assert(sub[1] == toks@[i as int + 1]);
                },
            }
        }
    }
    if j == n {
        return Err(ParseError { pos: j, expected: Expected::CloseBrace, found: None });
    }
    let close_brace = match &toks[j] {
        Token::CloseBrace => true,
        _ => false,
    };
    if !close_brace {
        return Err(
            ParseError {
                pos: j,
                expected: Expected::CloseBrace,
                found: Some(toks[j].clone()),
            },
        );
    }
    proof {
        let sub = toks@.subrange(i as int, j as int + 1);
        assert(sub[0] == toks@[i as int]);
        assert(sub[1] == toks@[i as int + 1]);
        assert(sub[2] == toks@[i as int + 2]);
        assert(sub[3] == toks@[i as int + 3]);
        assert(sub[4] == toks@[i as int + 4]);
        assert(sub.last() == toks@[j as int]);
        assert(sub.subrange(5, sub.len() - 1) =~= toks@.subrange(i as int + 5, j as int));
        assert(is_tokens_of_func(sub, Func::Func(name, st)));
    }
    Ok((j + 1, Func::Func(name, st)))
}

/// Parse the start symbol: a program is exactly one function.
pub fn parse_program(toks: &Vec<Token>, i: usize) -> (r: Result<(usize, Prog), ParseError>)
    requires
        i <= toks@.len(),
    ensures
        r matches Ok(p) ==> i <= p.0 <= toks@.len() && is_tokens_of_prog(
            toks@.subrange(i as int, p.0 as int),
            p.1,
        ),
        forall|j: int, p: Prog|
            i <= j <= toks@.len() && is_tokens_of_prog(toks@.subrange(i as int, j), p)
                ==> (r matches Ok(q) && q.0 == j && prog_equiv(q.1, p)),
{
    match parse_function(toks, i) {
        Ok((j, f)) => Ok((j, Prog::Prog(f))),
        Err(err) => Err(err),
    }
}

/// Parsing: produce the program whose token rendering is exactly the
/// given token sequence, or fail with a parse error naming the expected
/// construct, the position, and what was found instead.
///
/// The parse succeeds if and only if the whole sequence matches the
/// grammar, and the result is then the unique such program (up to the
/// characters of the function name); no partial tree is ever returned.
pub fn parse(tokens: Vec<Token>) -> (r: Result<Prog, ParseError>)
    ensures
        r matches Ok(p) ==> is_tokens_of_prog(tokens@, p),
        forall|p: Prog|
            is_tokens_of_prog(tokens@, p) ==> (r matches Ok(q) && prog_equiv(q, p)),
{
    proof {
        assert(tokens@.subrange(0, tokens@.len() as int) =~= tokens@);
    }
    match parse_program(&tokens, 0) {
        Ok((j, p)) => {
            if j == tokens.len() {
                Ok(p)
            } else {
                Err(
                    ParseError {
                        pos: j,
                        expected: Expected::EndOfProgram,
                        found: Some(tokens[j].clone()),
                    },
                )
            }
        },
        Err(err) => Err(err),
    }
}

proof fn lemma_expr_tokens_equiv(ts1: Seq<Token>, ts2: Seq<Token>, e: Expr)
    requires
        is_tokens_of_expr(ts1, e),
        toks_equiv(ts1, ts2),
    ensures
        is_tokens_of_expr(ts2, e),
    decreases e,
{
    assert(tok_equiv(ts1[0], ts2[0]));
    match e {
        Expr::IntLiteral(_) => {},
        Expr::UnaryOp(_, sub) => {
            assert forall|k: int| 0 <= k < ts1.skip(1).len() implies tok_equiv(
                ts1.skip(1)[k],
                ts2.skip(1)[k],
            ) by {
                assert(tok_equiv(ts1[k + 1], ts2[k + 1]));
            }
            lemma_expr_tokens_equiv(ts1.skip(1), ts2.skip(1), *sub);
        },
    }
}

/// The grammar sees tokens only through their variants and text: a
/// program rendered by one token sequence is rendered by every
/// equivalent one.
pub proof fn lemma_prog_tokens_equiv(ts1: Seq<Token>, ts2: Seq<Token>, p: Prog)
    requires
        is_tokens_of_prog(ts1, p),
        toks_equiv(ts1, ts2),
    ensures
        is_tokens_of_prog(ts2, p),
{
    match p {
        Prog::Prog(Func::Func(_, Stmt::Return(e))) => {
            assert(tok_equiv(ts1[0], ts2[0]));
            assert(tok_equiv(ts1[1], ts2[1]));
            assert(tok_equiv(ts1[2], ts2[2]));
            assert(tok_equiv(ts1[3], ts2[3]));
            assert(tok_equiv(ts1[4], ts2[4]));
            assert(tok_equiv(ts1.last(), ts2.last()));
            let st1 = ts1.subrange(5, ts1.len() - 1);
            let st2 = ts2.subrange(5, ts2.len() - 1);
            assert(tok_equiv(st1[0], st2[0]));
            assert(tok_equiv(st1.last(), st2.last()));
            let ex1 = st1.subrange(1, st1.len() - 1);
            let ex2 = st2.subrange(1, st2.len() - 1);
            assert forall|k: int| 0 <= k < ex1.len() implies tok_equiv(ex1[k], ex2[k]) by {
                assert(ex1[k] == ts1[k + 6]);
                assert(ex2[k] == ts2[k + 6]);
                assert(tok_equiv(ts1[k + 6], ts2[k + 6]));
            }
            lemma_expr_tokens_equiv(ex1, ex2, e);
        },
    }
}

/// Determinism of the grammar: a token sequence renders at most one
/// program, so parsing the same token sequence always yields structurally
/// identical abstract syntax trees.
pub proof fn lemma_parse_deterministic(ts: Seq<Token>, p1: Prog, p2: Prog)
    requires
        is_tokens_of_prog(ts, p1),
        is_tokens_of_prog(ts, p2),
    ensures
        prog_equiv(p1, p2),
{
    match (p1, p2) {
        (Prog::Prog(Func::Func(_, Stmt::Return(e1))), Prog::Prog(Func::Func(_, Stmt::Return(e2)))) => {
            let stmt_toks = ts.subrange(5, ts.len() - 1);
            let expr_toks = stmt_toks.subrange(1, stmt_toks.len() - 1);
            lemma_expr_tokens_unique(expr_toks, e1, e2);
        },
    }
}

} // verus!
