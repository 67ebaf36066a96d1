//! Lexical analysis: a single left-to-right scan of the source text with an
//! accumulation buffer for multi-character tokens.
//!
//! Runs of ASCII letters and digits accumulate into the buffer; on reaching
//! any other character (and at end of input) the buffer is flushed as a
//! keyword, an integer literal or an identifier, in that classification
//! order. Whitespace is skipped; the characters `; { } ( ) - ~ !` become
//! single-character tokens; every other character is a lexical error.
use vstd::prelude::*;

use crate::data_types::{push_char, tok_equiv, toks_equiv, LexError, Token, UnaryOp};

verus! {

/// An ASCII letter or digit: the characters that accumulate into a word
/// (keyword, integer literal or identifier).
pub open spec fn is_word_char(c: char) -> bool {
    ('a' as u32 <= c as u32 && c as u32 <= 'z' as u32)
    || ('A' as u32 <= c as u32 && c as u32 <= 'Z' as u32)
    || ('0' as u32 <= c as u32 && c as u32 <= '9' as u32)
}

/// A whitespace character, skipped between tokens.
pub open spec fn is_space(c: char) -> bool {
    c == ' ' || c == '\n' || c == '\t' || c == '\r'
}

/// A single-character token: a structural marker or a unary operator.
pub open spec fn is_symbol(c: char) -> bool {
    c == ';' || c == '{' || c == '}' || c == '(' || c == ')'
    || c == '-' || c == '~' || c == '!'
}

/// A character the lexer accepts in some position.
pub open spec fn good_char(c: char) -> bool {
    is_word_char(c) || is_space(c) || is_symbol(c)
}

/// The token that a single-character symbol lexes to.
pub open spec fn symbol_token(c: char) -> Token
    recommends
        is_symbol(c),
{
    if c == ';' {
        Token::Semicolon
    } else if c == '{' {
        Token::OpenBrace
    } else if c == '}' {
        Token::CloseBrace
    } else if c == '(' {
        Token::OpenParenthesis
    } else if c == ')' {
        Token::CloseParenthesis
    } else if c == '-' {
        Token::UnaryOp(UnaryOp::Negation)
    } else if c == '~' {
        Token::UnaryOp(UnaryOp::BitComp)
    } else {
        Token::UnaryOp(UnaryOp::LogNeg)
    }
}

/// An ASCII decimal digit.
pub open spec fn is_digit(c: char) -> bool {
    '0' as u32 <= c as u32 && c as u32 <= '9' as u32
}

/// The numeric value of an ASCII decimal digit.
pub open spec fn digit_val(c: char) -> nat
    recommends
        is_digit(c),
{
    (c as int - '0' as int) as nat
}

/// Every character of `s` is an ASCII decimal digit.
pub open spec fn all_digits(s: Seq<char>) -> bool {
    forall|k: int| 0 <= k < s.len() ==> is_digit(#[trigger] s[k])
}

/// The value of a string of decimal digits.
pub open spec fn dec_val(s: Seq<char>) -> nat
    decreases s.len(),
{
    if s.len() == 0 {
        0
    } else {
        dec_val(s.drop_last()) * 10 + digit_val(s.last())
    }
}

/// The token that a flushed word classifies to: first an exact match
/// against the fixed keyword set, then anything that parses fully as an
/// unsigned 32-bit integer, else an identifier.
pub open spec fn classified(buf: Seq<char>, t: Token) -> bool
    recommends
        buf.len() > 0,
{
    if buf == "int"@ || buf == "return"@ {
        t matches Token::Keyword(k) && k@ == buf
    } else if all_digits(buf) && dec_val(buf) < 0x1_0000_0000 {
        t matches Token::IntLiteral(v) && v as nat == dec_val(buf)
    } else {
        t matches Token::Identifier(id) && id@ == buf
    }
}

/// The lexing relation: with the word characters `buf` already
/// accumulated, the remaining source `s` lexes to exactly the token
/// sequence `ts`.
pub open spec fn lexes_from(buf: Seq<char>, s: Seq<char>, ts: Seq<Token>) -> bool
    decreases s.len(), buf.len(),
{
    if s.len() == 0 {
        if buf.len() == 0 {
            ts.len() == 0
        } else {
            ts.len() == 1 && classified(buf, ts[0])
        }
    } else {
        let c = s[0];
        if is_word_char(c) {
            lexes_from(buf.push(c), s.skip(1), ts)
        } else if !good_char(c) {
            false
        } else if buf.len() > 0 {
            ts.len() >= 1 && classified(buf, ts[0]) && lexes_from(Seq::empty(), s, ts.skip(1))
        } else if is_space(c) {
            lexes_from(Seq::empty(), s.skip(1), ts)
        } else {
            ts.len() >= 1 && ts[0] == symbol_token(c) && lexes_from(
                Seq::empty(),
                s.skip(1),
                ts.skip(1),
            )
        }
    }
}

/// The whole source text lexes to exactly the token sequence `ts`.
pub open spec fn lexes_to(s: Seq<char>, ts: Seq<Token>) -> bool {
    lexes_from(Seq::empty(), s, ts)
}

/// The longest all-word-character suffix of `s`.
pub open spec fn word_suffix(s: Seq<char>) -> Seq<char>
    decreases s.len(),
{
    if s.len() == 0 || !is_word_char(s.last()) {
        Seq::empty()
    } else {
        word_suffix(s.drop_last()).push(s.last())
    }
}

proof fn lemma_word_suffix_all(s: Seq<char>)
    requires
        forall|k: int| 0 <= k < s.len() ==> is_word_char(#[trigger] s[k]),
    ensures
        word_suffix(s) =~= s,
    decreases s.len(),
{
    if s.len() > 0 {
        lemma_word_suffix_all(s.drop_last());
        assert(word_suffix(s.drop_last()).push(s.last()) =~= s);
    }
}

proof fn lemma_word_suffix_break(a: Seq<char>, b: Seq<char>)
    requires
        b.len() > 0,
        !is_word_char(b[0]),
    ensures
        word_suffix(a + b) =~= word_suffix(b),
    decreases b.len(),
{
    if b.len() == 1 {
        assert((a + b).last() == b[0]);
        assert(word_suffix(a + b) =~= Seq::<char>::empty());
        assert(word_suffix(b) =~= Seq::<char>::empty());
    } else if is_word_char(b.last()) {
        lemma_word_suffix_break(a, b.drop_last());
        assert((a + b).drop_last() =~= a + b.drop_last());
        assert((a + b).last() == b.last());
        assert(b.drop_last()[0] == b[0]);
    } else {
        assert((a + b).last() == b.last());
    }
}

proof fn lemma_word_suffix_skip(c: char, t: Seq<char>)
    requires
        !is_word_char(c),
    ensures
        word_suffix(seq![c] + t) =~= word_suffix(t),
    decreases t.len(),
{
    if t.len() == 0 {
        assert((seq![c] + t).last() == c);
    } else if is_word_char(t.last()) {
        lemma_word_suffix_skip(c, t.drop_last());
        assert((seq![c] + t).drop_last() =~= seq![c] + t.drop_last());
        assert((seq![c] + t).last() == t.last());
    } else {
        assert((seq![c] + t).last() == t.last());
    }
}

proof fn lemma_trailing_from(buf: Seq<char>, s: Seq<char>, ts: Seq<Token>)
    requires
        lexes_from(buf, s, ts),
        forall|k: int| 0 <= k < buf.len() ==> is_word_char(#[trigger] buf[k]),
        word_suffix(buf + s).len() > 0,
    ensures
        ts.len() >= 1 && classified(word_suffix(buf + s), ts.last()),
    decreases s.len(), buf.len(),
{
    if s.len() == 0 {
        assert(buf + s =~= buf);
        if buf.len() == 0 {
            assert(word_suffix(buf).len() == 0);
        } else {
            lemma_word_suffix_all(buf);
        }
    } else {
        let c = s[0];
        if is_word_char(c) {
            assert(buf.push(c) + s.skip(1) =~= buf + s);
            lemma_trailing_from(buf.push(c), s.skip(1), ts);
        } else if !good_char(c) {
            assert(false);
        } else if buf.len() > 0 {
            lemma_word_suffix_break(buf, s);
            assert(Seq::<char>::empty() + s =~= s);
            lemma_trailing_from(Seq::empty(), s, ts.skip(1));
            assert(ts.last() == ts.skip(1).last());
        } else if is_space(c) {
            assert(seq![c] + s.skip(1) =~= s);
            assert(buf + s =~= s);
            lemma_word_suffix_skip(c, s.skip(1));
            assert(Seq::<char>::empty() + s.skip(1) =~= s.skip(1));
            lemma_trailing_from(Seq::empty(), s.skip(1), ts);
        } else {
            assert(seq![c] + s.skip(1) =~= s);
            assert(buf + s =~= s);
            lemma_word_suffix_skip(c, s.skip(1));
            assert(Seq::<char>::empty() + s.skip(1) =~= s.skip(1));
            lemma_trailing_from(Seq::empty(), s.skip(1), ts.skip(1));
            assert(ts.last() == ts.skip(1).last());
        }
    }
}

/// Trailing buffered characters at end of input are not dropped: when the
/// source ends in a run of letters and digits, the lexed token sequence
/// is nonempty and ends with exactly the token that run classifies to.
pub proof fn lemma_trailing_word_flushed(s: Seq<char>, ts: Seq<Token>)
    requires
        lexes_to(s, ts),
        word_suffix(s).len() > 0,
    ensures
        ts.len() >= 1 && classified(word_suffix(s), ts.last()),
{
    assert(Seq::<char>::empty() + s =~= s);
    lemma_trailing_from(Seq::empty(), s, ts);
}

proof fn lemma_lexes_from_unique(buf: Seq<char>, s: Seq<char>, ts1: Seq<Token>, ts2: Seq<Token>)
    requires
        lexes_from(buf, s, ts1),
        lexes_from(buf, s, ts2),
    ensures
        toks_equiv(ts1, ts2),
    decreases s.len(), buf.len(),
{
    if s.len() == 0 {
        if buf.len() > 0 {
            assert(tok_equiv(ts1[0], ts2[0]));
        }
    } else {
        let c = s[0];
        if is_word_char(c) {
            lemma_lexes_from_unique(buf.push(c), s.skip(1), ts1, ts2);
        } else if !good_char(c) {
            assert(false);
        } else if buf.len() > 0 {
            lemma_lexes_from_unique(Seq::empty(), s, ts1.skip(1), ts2.skip(1));
            assert(tok_equiv(ts1[0], ts2[0]));
            assert forall|k: int| 0 <= k < ts1.len() implies tok_equiv(ts1[k], ts2[k]) by {
                if k > 0 {
                    assert(tok_equiv(ts1.skip(1)[k - 1], ts2.skip(1)[k - 1]));
                }
            }
        } else if is_space(c) {
            lemma_lexes_from_unique(Seq::empty(), s.skip(1), ts1, ts2);
        } else {
            lemma_lexes_from_unique(Seq::empty(), s.skip(1), ts1.skip(1), ts2.skip(1));
            assert(tok_equiv(ts1[0], ts2[0]));
            assert forall|k: int| 0 <= k < ts1.len() implies tok_equiv(ts1[k], ts2[k]) by {
                if k > 0 {
                    assert(tok_equiv(ts1.skip(1)[k - 1], ts2.skip(1)[k - 1]));
                }
            }
        }
    }
}

/// Lexing is unique: the source text determines the token sequence, up
/// to the characters of the keyword and identifier texts.
pub proof fn lemma_lex_unique(s: Seq<char>, ts1: Seq<Token>, ts2: Seq<Token>)
    requires
        lexes_to(s, ts1),
        lexes_to(s, ts2),
    ensures
        toks_equiv(ts1, ts2),
{
    lemma_lexes_from_unique(Seq::empty(), s, ts1, ts2);
}

fn word_char(c: char) -> (r: bool)
    ensures
        r == is_word_char(c),
{
    let u = c as u32;
    (('a' as u32) <= u && u <= ('z' as u32)) || (('A' as u32) <= u && u <= ('Z' as u32)) || (('0'
        as u32) <= u && u <= ('9' as u32))
}

fn space_char(c: char) -> (r: bool)
    ensures
        r == is_space(c),
{
    c == ' ' || c == '\n' || c == '\t' || c == '\r'
}

fn symbol_char(c: char) -> (r: bool)
    ensures
        r == is_symbol(c),
{
    c == ';' || c == '{' || c == '}' || c == '(' || c == ')' || c == '-' || c == '~' || c == '!'
}

fn symbol_tok(c: char) -> (t: Token)
    requires
        is_symbol(c),
    ensures
        t == symbol_token(c),
{
    match c {
        ';' => Token::Semicolon,
        '{' => Token::OpenBrace,
        '}' => Token::CloseBrace,
        '(' => Token::OpenParenthesis,
        ')' => Token::CloseParenthesis,
        '-' => Token::UnaryOp(UnaryOp::Negation),
        '~' => Token::UnaryOp(UnaryOp::BitComp),
        _ => Token::UnaryOp(UnaryOp::LogNeg),
    }
}

fn chars_to_string(v: &Vec<char>) -> (s: String)
    ensures
        s@ == v@,
{
    let mut s = String::new();
    let mut k: usize = 0;
    while k < v.len()
        invariant
            k <= v@.len(),
            s@ == v@.take(k as int),
        decreases v@.len() - k,
    {
        push_char(&mut s, v[k]);
        proof {
            assert(v@.take(k as int).push(v@[k as int]) =~= v@.take(k as int + 1));
        }
        k += 1;
    }
    proof {
        assert(v@.take(v@.len() as int) =~= v@);
    }
    s
}

fn is_kw_int(buf: &Vec<char>) -> (r: bool)
    ensures
        r == (buf@ == "int"@),
{
    proof {
        reveal_strlit("int");
    }
    let r = buf.len() == 3 && buf[0] == 'i' && buf[1] == 'n' && buf[2] == 't';
    proof {
        if r {
            assert(buf@ =~= "int"@);
        }
    }
    r
}

fn is_kw_return(buf: &Vec<char>) -> (r: bool)
    ensures
        r == (buf@ == "return"@),
{
    proof {
        reveal_strlit("return");
    }
    let r = buf.len() == 6 && buf[0] == 'r' && buf[1] == 'e' && buf[2] == 't' && buf[3] == 'u'
        && buf[4] == 'r' && buf[5] == 'n';
    proof {
        if r {
            assert(buf@ =~= "return"@);
        }
    }
    r
}

fn digit_value(c: char) -> (v: u32)
    requires
        is_digit(c),
    ensures
        v < 10,
        v as nat == digit_val(c),
{
    c as u32 - '0' as u32
}

/// The value a buffer parses to as an unsigned 32-bit integer, or `None`
/// when it is not a string of digits or does not fit in 32 bits.
fn try_parse_u32(buf: &Vec<char>) -> (r: Option<u32>)
    requires
        buf@.len() > 0,
    ensures
        r matches Some(v) ==> all_digits(buf@) && dec_val(buf@) < 0x1_0000_0000 && v as nat
            == dec_val(buf@),
        r is None ==> !(all_digits(buf@) && dec_val(buf@) < 0x1_0000_0000),
{
    let cap: u64 = 0x1_0000_0000;
    let mut acc: u64 = 0;
    let mut k: usize = 0;
    while k < buf.len()
        invariant
            k <= buf@.len(),
            all_digits(buf@.take(k as int)),
            acc <= cap,
            dec_val(buf@.take(k as int)) < cap ==> acc == dec_val(buf@.take(k as int)),
            dec_val(buf@.take(k as int)) >= cap ==> acc == cap,
            cap == 0x1_0000_0000,
        decreases buf@.len() - k,
    {
        let c = buf[k];
        if !word_is_digit(c) {
            proof {
                assert(!is_digit(buf@[k as int]));
            }
            return None;
        }
        let d = digit_value(c);
        proof {
            assert(buf@.take(k as int).push(buf@[k as int]) =~= buf@.take(k as int + 1));
            assert(buf@.take(k as int + 1).drop_last() =~= buf@.take(k as int));
            if dec_val(buf@.take(k as int)) >= cap {
                assert(dec_val(buf@.take(k as int)) * 10 + digit_val(buf@[k as int]) >= cap) by {
                    assert(dec_val(buf@.take(k as int)) * 10 >= cap * 10) by (nonlinear_arith)
                        requires
                            dec_val(buf@.take(k as int)) >= cap,
                            cap > 0,
                    ;
                }
            }
        }
        let next = acc * 10 + (d as u64);
        if next > 0xFFFF_FFFF {
            acc = cap;
        } else {
            acc = next;
        }
        k += 1;
    }
    proof {
        assert(buf@.take(buf@.len() as int) =~= buf@);
    }
    if acc <= 0xFFFF_FFFF {
        Some(acc as u32)
    } else {
        None
    }
}

fn word_is_digit(c: char) -> (r: bool)
    ensures
        r == is_digit(c),
{
    let u = c as u32;
    ('0' as u32) <= u && u <= ('9' as u32)
}

/// Flush the accumulation buffer into the token it classifies to.
fn classify_buffer(buf: &Vec<char>) -> (t: Token)
    requires
        buf@.len() > 0,
    ensures
        classified(buf@, t),
{
    if is_kw_int(buf) || is_kw_return(buf) {
        Token::Keyword(chars_to_string(buf))
    } else {
        match try_parse_u32(buf) {
            Some(v) => Token::IntLiteral(v),
            None => Token::Identifier(chars_to_string(buf)),
        }
    }
}

/// Lexical analysis: convert the complete source text into its ordered
/// token sequence, or fail on the first character that is neither
/// whitespace, a recognized symbol, nor an ASCII letter or digit.
///
/// On success the tokens are exactly the lexing of the source, with a
/// pending word flushed at end of input; on failure the error carries the
/// position of the first unrecognized character and no token sequence
/// lexes the source at all.
pub fn lex(source: &str) -> (r: Result<Vec<Token>, LexError>)
    ensures
        r matches Ok(ts) ==> lexes_to(source@, ts@),
        r matches Err(e) ==> {
            &&& e.pos < source@.len()
            &&& e.ch == source@[e.pos as int]
            &&& !good_char(e.ch)
            &&& forall|j: int| 0 <= j < e.pos ==> good_char(#[trigger] source@[j])
            &&& forall|ts: Seq<Token>| !lexes_to(source@, ts)
        },
{
    let n = source.unicode_len();
    let mut tokens: Vec<Token> = Vec::new();
    let mut buffer: Vec<char> = Vec::new();
    let mut i: usize = 0;
    proof {
        assert(source@.skip(0int) =~= source@);
        assert(buffer@ =~= Seq::<char>::empty());
        assert forall|rest: Seq<Token>|
            lexes_from(buffer@, source@.skip(0int), rest) implies lexes_to(
            source@,
            tokens@ + rest,
        ) by {
            assert(tokens@ + rest =~= rest);
        }
        if exists|all: Seq<Token>| lexes_to(source@, all) {
            let all = choose|all: Seq<Token>| lexes_to(source@, all);
            assert(lexes_from(buffer@, source@.skip(0int), all));
        }
    }
    while i < n
        invariant
            n == source@.len(),
            i <= n,
            forall|j: int| 0 <= j < i ==> good_char(#[trigger] source@[j]),
            forall|rest: Seq<Token>|
                lexes_from(buffer@, source@.skip(i as int), rest) ==> lexes_to(
                    source@,
                    tokens@ + rest,
                ),
            (exists|all: Seq<Token>| lexes_to(source@, all)) ==> (exists|rest: Seq<Token>|
                lexes_from(buffer@, source@.skip(i as int), rest)),
        decreases n - i, buffer@.len(),
    {
        let ghost old_buf = buffer@;
        let ghost old_toks = tokens@;
        let ghost s_i = source@.skip(i as int);
        let c = source.get_char(i);
        proof {
            assert(s_i[0] == source@[i as int]);
            assert(s_i.skip(1) =~= source@.skip(i as int + 1));
        }
        if word_char(c) {
            buffer.push(c);
            i += 1;
            proof {
                assert forall|rest: Seq<Token>|
                    lexes_from(buffer@, source@.skip(i as int), rest) implies lexes_to(
                    source@,
                    tokens@ + rest,
                ) by {
                    assert(lexes_from(old_buf, s_i, rest));
                }
                if exists|all: Seq<Token>| lexes_to(source@, all) {
                    let rest = choose|rest: Seq<Token>| lexes_from(old_buf, s_i, rest);
                    assert(lexes_from(buffer@, source@.skip(i as int), rest));
                }
            }
        } else if buffer.len() > 0 {
            if space_char(c) || symbol_char(c) {
                let t = classify_buffer(&buffer);
                tokens.push(t);
                buffer.clear();
                proof {
                    assert(buffer@ =~= Seq::<char>::empty());
                    assert forall|rest: Seq<Token>|
                        lexes_from(buffer@, source@.skip(i as int), rest) implies lexes_to(
                        source@,
                        tokens@ + rest,
                    ) by {
                        let ts = seq![t] + rest;
                        assert(ts.skip(1) =~= rest);
                        assert(lexes_from(old_buf, s_i, ts));
                        assert(old_toks + ts =~= tokens@ + rest);
                    }
                    if exists|all: Seq<Token>| lexes_to(source@, all) {
                        let rest0 = choose|rest0: Seq<Token>| lexes_from(old_buf, s_i, rest0);
                        assert(lexes_from(buffer@, source@.skip(i as int), rest0.skip(1)));
                    }
                }
            } else {
                proof {
                    assert forall|ts: Seq<Token>| !lexes_to(source@, ts) by {
                        if lexes_to(source@, ts) {
                            let rest = choose|rest: Seq<Token>| lexes_from(old_buf, s_i, rest);
                            assert(!lexes_from(old_buf, s_i, rest));
                        }
                    }
                }
                return Err(LexError { pos: i, ch: c });
            }
        } else if space_char(c) {
            i += 1;
            proof {
                assert(old_buf =~= Seq::<char>::empty());
                assert forall|rest: Seq<Token>|
                    lexes_from(buffer@, source@.skip(i as int), rest) implies lexes_to(
                    source@,
                    tokens@ + rest,
                ) by {
                    assert(lexes_from(old_buf, s_i, rest));
                }
                if exists|all: Seq<Token>| lexes_to(source@, all) {
                    let rest = choose|rest: Seq<Token>| lexes_from(old_buf, s_i, rest);
                    assert(lexes_from(buffer@, source@.skip(i as int), rest));
                }
            }
        } else if symbol_char(c) {
            let t = symbol_tok(c);
            tokens.push(t);
            i += 1;
            proof {
                assert(old_buf =~= Seq::<char>::empty());
                assert forall|rest: Seq<Token>|
                    lexes_from(buffer@, source@.skip(i as int), rest) implies lexes_to(
                    source@,
                    tokens@ + rest,
                ) by {
                    let ts = seq![t] + rest;
                    assert(ts.skip(1) =~= rest);
                    assert(lexes_from(old_buf, s_i, ts));
                    assert(old_toks + ts =~= tokens@ + rest);
                }
                if exists|all: Seq<Token>| lexes_to(source@, all) {
                    let rest0 = choose|rest0: Seq<Token>| lexes_from(old_buf, s_i, rest0);
                    assert(lexes_from(buffer@, source@.skip(i as int), rest0.skip(1)));
                }
            }
        } else {
            proof {
                assert forall|ts: Seq<Token>| !lexes_to(source@, ts) by {
                    if lexes_to(source@, ts) {
                        let rest = choose|rest: Seq<Token>| lexes_from(old_buf, s_i, rest);
                        assert(!lexes_from(old_buf, s_i, rest));
                    }
                }
            }
            return Err(LexError { pos: i, ch: c });
        }
    }
    proof {
        assert(source@.skip(n as int) =~= Seq::<char>::empty());
    }
    if buffer.len() > 0 {
        let ghost old_toks = tokens@;
        let t = classify_buffer(&buffer);
        tokens.push(t);
        proof {
            let ts = seq![t];
            assert(lexes_from(buffer@, source@.skip(n as int), ts));
            assert(old_toks + ts =~= tokens@);
        }
    } else {
        proof {
            assert(lexes_from(buffer@, source@.skip(n as int), Seq::<Token>::empty()));
            assert(tokens@ + Seq::<Token>::empty() =~= tokens@);
        }
    }
    Ok(tokens)
}

} // verus!
