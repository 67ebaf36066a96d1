use minicc::data_types::{Expected, Expr, Func, Prog, Stmt, Token, UnaryOp};
use minicc::lex::lex;
use minicc::parse::parse;

fn kw(s: &str) -> Token {
    Token::Keyword(String::from(s))
}

fn ident(s: &str) -> Token {
    Token::Identifier(String::from(s))
}

#[test]
fn lex_simple_program() {
    let toks = lex("int main() { return 3; }").unwrap();
    assert_eq!(
        toks,
        vec![
            kw("int"),
            ident("main"),
            Token::OpenParenthesis,
            Token::CloseParenthesis,
            Token::OpenBrace,
            kw("return"),
            Token::IntLiteral(3),
            Token::Semicolon,
            Token::CloseBrace,
        ]
    );
}

#[test]
fn lex_operators() {
    let toks = lex("-~!").unwrap();
    assert_eq!(
        toks,
        vec![
            Token::UnaryOp(UnaryOp::Negation),
            Token::UnaryOp(UnaryOp::BitComp),
            Token::UnaryOp(UnaryOp::LogNeg),
        ]
    );
}

#[test]
fn lex_empty_input() {
    assert_eq!(lex("").unwrap(), vec![]);
}

#[test]
fn lex_whitespace_only() {
    assert_eq!(lex(" \n\t\r ").unwrap(), vec![]);
}

#[test]
fn lex_trailing_word_is_flushed() {
    // a file ending mid-statement still tokenizes completely
    let toks = lex("return 5").unwrap();
    assert_eq!(toks, vec![kw("return"), Token::IntLiteral(5)]);
}

#[test]
fn lex_trailing_literal_in_unterminated_program() {
    let toks = lex("int main() { return 5").unwrap();
    assert_eq!(toks.last(), Some(&Token::IntLiteral(5)));
}

#[test]
fn lex_keywords_and_near_keywords() {
    let toks = lex("int return intx returns").unwrap();
    assert_eq!(
        toks,
        vec![kw("int"), kw("return"), ident("intx"), ident("returns")]
    );
}

#[test]
fn lex_literal_with_leading_zeros() {
    assert_eq!(lex("007").unwrap(), vec![Token::IntLiteral(7)]);
}

#[test]
fn lex_largest_literal() {
    assert_eq!(lex("4294967295").unwrap(), vec![Token::IntLiteral(4294967295)]);
}

#[test]
fn lex_overflowing_digits_are_an_identifier() {
    // does not parse fully as an unsigned 32-bit integer
    assert_eq!(lex("4294967296").unwrap(), vec![ident("4294967296")]);
}

#[test]
fn lex_rejects_unrecognized_character() {
    let err = lex("int main() { return $3; }").unwrap_err();
    assert_eq!(err.ch, '$');
    assert_eq!(err.pos, 20);
}

#[test]
fn lex_rejects_bad_character_after_word() {
    let err = lex("ab#c").unwrap_err();
    assert_eq!(err.ch, '#');
    assert_eq!(err.pos, 2);
}

#[test]
fn parse_simple_program() {
    let toks = lex("int main() { return 3; }").unwrap();
    let prog = parse(toks).unwrap();
    assert_eq!(
        prog,
        Prog::Prog(Func::Func(
            String::from("main"),
            Stmt::Return(Expr::IntLiteral(3))
        ))
    );
}

#[test]
fn parse_nested_operators() {
    let toks = lex("int f() { return !~-9; }").unwrap();
    let prog = parse(toks).unwrap();
    assert_eq!(
        prog,
        Prog::Prog(Func::Func(
            String::from("f"),
            Stmt::Return(Expr::UnaryOp(
                UnaryOp::LogNeg,
                Box::new(Expr::UnaryOp(
                    UnaryOp::BitComp,
                    Box::new(Expr::UnaryOp(
                        UnaryOp::Negation,
                        Box::new(Expr::IntLiteral(9))
                    ))
                ))
            ))
        ))
    );
}

#[test]
fn parse_same_tokens_twice_is_deterministic() {
    let toks1 = lex("int main() { return ~!2; }").unwrap();
    let toks2 = toks1.clone();
    let p1 = parse(toks1).unwrap();
    let p2 = parse(toks2).unwrap();
    assert_eq!(p1, p2);
}

#[test]
fn parse_missing_semicolon_fails() {
    let toks = lex("int main() { return 3 }").unwrap();
    let err = parse(toks).unwrap_err();
    assert_eq!(err.expected, Expected::Semicolon);
    assert_eq!(err.found, Some(Token::CloseBrace));
}

#[test]
fn parse_wrong_leading_keyword_fails() {
    // "float" lexes as an identifier, not the keyword "int"
    let toks = lex("float main() { return 3; }").unwrap();
    let err = parse(toks).unwrap_err();
    assert_eq!(err.expected, Expected::KeywordInt);
    assert_eq!(err.pos, 0);
    assert_eq!(err.found, Some(ident("float")));
}

#[test]
fn parse_wrong_return_keyword_fails() {
    let toks = lex("int main() { give 3; }").unwrap();
    let err = parse(toks).unwrap_err();
    assert_eq!(err.expected, Expected::KeywordReturn);
    assert_eq!(err.found, Some(ident("give")));
}

#[test]
fn parse_empty_token_sequence_fails() {
    let err = parse(vec![]).unwrap_err();
    assert_eq!(err.expected, Expected::KeywordInt);
    assert_eq!(err.pos, 0);
    assert_eq!(err.found, None);
}

#[test]
fn parse_missing_function_name_fails() {
    let toks = lex("int () { return 3; }").unwrap();
    let err = parse(toks).unwrap_err();
    assert_eq!(err.expected, Expected::FunctionName);
    assert_eq!(err.found, Some(Token::OpenParenthesis));
}

#[test]
fn parse_missing_open_parenthesis_fails() {
    let toks = lex("int main) { return 3; }").unwrap();
    let err = parse(toks).unwrap_err();
    assert_eq!(err.expected, Expected::OpenParenthesis);
}

#[test]
fn parse_missing_close_parenthesis_fails() {
    let toks = lex("int main( { return 3; }").unwrap();
    let err = parse(toks).unwrap_err();
    assert_eq!(err.expected, Expected::CloseParenthesis);
}

#[test]
fn parse_missing_open_brace_fails() {
    let toks = lex("int main() return 3; }").unwrap();
    let err = parse(toks).unwrap_err();
    assert_eq!(err.expected, Expected::OpenBrace);
}

#[test]
fn parse_missing_expression_fails() {
    let toks = lex("int main() { return ; }").unwrap();
    let err = parse(toks).unwrap_err();
    assert_eq!(err.expected, Expected::Expression);
    assert_eq!(err.found, Some(Token::Semicolon));
}

#[test]
fn parse_operator_without_literal_fails() {
    let toks = lex("int main() { return -; }").unwrap();
    let err = parse(toks).unwrap_err();
    assert_eq!(err.expected, Expected::Expression);
}

#[test]
fn parse_missing_close_brace_fails() {
    let toks = lex("int main() { return 3;").unwrap();
    let err = parse(toks).unwrap_err();
    assert_eq!(err.expected, Expected::CloseBrace);
    assert_eq!(err.found, None);
}

#[test]
fn parse_trailing_tokens_fail() {
    let toks = lex("int main() { return 3; };").unwrap();
    let err = parse(toks).unwrap_err();
    assert_eq!(err.expected, Expected::EndOfProgram);
    assert_eq!(err.found, Some(Token::Semicolon));
}

#[test]
fn parse_truncated_after_int_fails() {
    let err = parse(vec![kw("int")]).unwrap_err();
    assert_eq!(err.expected, Expected::FunctionName);
    assert_eq!(err.found, None);
}
