//! The token and abstract-syntax-tree data model shared by the lexer, the
//! parser and the code generator, together with the error values that the
//! phases report.
use vstd::prelude::*;

verus! {

/// The three prefix unary operators of the source language.
#[derive(Debug, Clone, Copy, PartialEq, Eq)]
pub enum UnaryOp {
    /// Two's-complement arithmetic negation, written `-`.
    Negation,
    /// Bitwise complement, written `~`.
    BitComp,
    /// Logical negation (1 if the value is 0, else 0), written `!`.
    LogNeg,
}

/// An atomic lexical unit of the source text.
#[derive(Debug, Clone, PartialEq, Eq)]
pub enum Token {
    OpenBrace,
    CloseBrace,
    OpenParenthesis,
    CloseParenthesis,
    Semicolon,
    /// One of the fixed keywords, `"int"` or `"return"`.
    Keyword(String),
    Identifier(String),
    /// An unsigned integer literal that fits in 32 bits.
    IntLiteral(u32),
    UnaryOp(UnaryOp),
}

/// The returned expression: an integer literal under a chain of prefix
/// unary operators. The nesting depth equals the number of chained
/// operators in the source.
#[derive(Debug, PartialEq, Eq)]
pub enum Expr {
    IntLiteral(u32),
    UnaryOp(UnaryOp, Box<Expr>),
}

/// The single statement form of the language.
#[derive(Debug, PartialEq, Eq)]
pub enum Stmt {
    Return(Expr),
}

/// A function: its name and its single statement.
#[derive(Debug, PartialEq, Eq)]
pub enum Func {
    Func(String, Stmt),
}

/// A whole program: exactly one function.
#[derive(Debug, PartialEq, Eq)]
pub enum Prog {
    Prog(Func),
}

/// The name of the one function of the program, as a character sequence.
pub open spec fn prog_name(p: Prog) -> Seq<char> {
    match p {
        Prog::Prog(Func::Func(name, _)) => name@,
    }
}

/// The returned expression of the one function of the program.
pub open spec fn prog_expr(p: Prog) -> Expr {
    match p {
        Prog::Prog(Func::Func(_, Stmt::Return(e))) => e,
    }
}

/// Two tokens agree: same variant, with the text fields compared by
/// their characters. (Two distinct `String` allocations may spell the
/// same keyword or identifier.)
pub open spec fn tok_equiv(x: Token, y: Token) -> bool {
    match (x, y) {
        (Token::Keyword(k1), Token::Keyword(k2)) => k1@ == k2@,
        (Token::Identifier(i1), Token::Identifier(i2)) => i1@ == i2@,
        _ => x == y,
    }
}

/// Two token sequences agree position by position.
pub open spec fn toks_equiv(a: Seq<Token>, b: Seq<Token>) -> bool {
    a.len() == b.len() && forall|k: int|
        0 <= k < a.len() ==> tok_equiv(#[trigger] a[k], #[trigger] b[k])
}

/// Relies on `String::push`: appends the character to the end of the
/// string, so the new view is the old view with `c` pushed.
#[verifier::external_body]
pub(crate) fn push_char(s: &mut String, c: char)
    ensures
        final(s)@ == old(s)@.push(c),
{
    s.push(c);
}

/// Two functions are structurally identical: same name characters, same
/// statement. (The name is compared as a character sequence, since two
/// distinct `String` allocations may spell the same name.)
pub open spec fn func_equiv(a: Func, b: Func) -> bool {
    match (a, b) {
        (Func::Func(n1, s1), Func::Func(n2, s2)) => n1@ == n2@ && s1 == s2,
    }
}

/// Two programs are structurally identical: same function name
/// characters, same returned expression.
pub open spec fn prog_equiv(a: Prog, b: Prog) -> bool {
    prog_name(a) == prog_name(b) && prog_expr(a) == prog_expr(b)
}

/// A lexical error: the position (in characters) and the offending
/// character, which is neither whitespace, a structural or operator
/// symbol, nor an ASCII letter or digit.
#[derive(Debug, Clone, Copy, PartialEq, Eq)]
pub struct LexError {
    pub pos: usize,
    pub ch: char,
}

/// What the parser was looking for when it found something else.
#[derive(Debug, Clone, Copy, PartialEq, Eq)]
pub enum Expected {
    KeywordInt,
    FunctionName,
    OpenParenthesis,
    CloseParenthesis,
    OpenBrace,
    CloseBrace,
    KeywordReturn,
    Expression,
    Semicolon,
    EndOfProgram,
}

/// A parse error: the index of the offending token, the construct that was
/// expected there, and the token actually found (`None` when the token
/// sequence ended too early).
#[derive(Debug, Clone, PartialEq, Eq)]
pub struct ParseError {
    pub pos: usize,
    pub expected: Expected,
    pub found: Option<Token>,
}

} // verus!
