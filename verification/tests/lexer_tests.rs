use dynalang::lexer::{Lexeme, Token, VarToken};

fn lit(s: &str) -> Lexeme {
    Lexeme::TokenLiteral(s.as_bytes().to_vec())
}

fn punct(t: Token) -> Lexeme {
    Lexeme::ByteToken(t)
}

fn kw(k: VarToken) -> Lexeme {
    Lexeme::VariableByteToken(k)
}

// Every keyword and punctuation byte in one stream.  Keyword lookahead is
// not boundary-aware, so `ifcondition` splits into the `if` keyword and a
// literal; a lone `i` inside a word stays part of the literal.
#[test]
fn test_with_all_keywords() {
    let code = "fn(){let[,];ifconditionelse&}";

    let bytes = code.as_bytes().to_vec();

    let lexed = Lexeme::from_literal(bytes);

    assert_eq!(
        vec![
            kw(VarToken::Fn),
            punct(Token::OpenParen),
            punct(Token::CloseParen),
            punct(Token::OpenCurly),
            kw(VarToken::Let),
            punct(Token::OpenSquare),
            punct(Token::Comma),
            punct(Token::CloseSquare),
            punct(Token::Semicolon),
            kw(VarToken::If),
            lit("condition"),
            kw(VarToken::Else),
            punct(Token::Ampersand),
            punct(Token::CloseCurly),
        ],
        lexed
    );
}

// A small program.  Punctuation elides the space run and then the newline
// run that follow it; `fn`, `let` and `struct` elide the following space
// run; `if` and `else` elide nothing.
#[test]
fn test_normal_code() {
    let code = "fn main() {
        let array = [0, 1, 2];

        if true { test } else {};
    }";

    let bytes = code.as_bytes().to_vec();

    let lexed = Lexeme::from_literal(bytes);

    assert_eq!(
        vec![
            kw(VarToken::Fn),
            lit("main"),
            punct(Token::OpenParen),
            punct(Token::CloseParen),
            punct(Token::OpenCurly),
            lit("        "),
            kw(VarToken::Let),
            lit("array "),
            punct(Token::Eq),
            punct(Token::OpenSquare),
            lit("0"),
            punct(Token::Comma),
            lit("1"),
            punct(Token::Comma),
            lit("2"),
            punct(Token::CloseSquare),
            punct(Token::Semicolon),
            lit("        "),
            kw(VarToken::If),
            lit(" true "),
            punct(Token::OpenCurly),
            lit("test "),
            punct(Token::CloseCurly),
            kw(VarToken::Else),
            lit(" "),
            punct(Token::OpenCurly),
            punct(Token::CloseCurly),
            punct(Token::Semicolon),
            lit("    "),
            punct(Token::CloseCurly),
        ],
        lexed
    );
}

// Keyword precedence: the exact spelling `fn` is one keyword lexeme, never
// a literal.
#[test]
fn test_keyword_precedence_exact() {
    let lexed = Lexeme::from_literal(b"fn".to_vec());
    assert_eq!(vec![kw(VarToken::Fn)], lexed);
}

// Keyword precedence without boundary awareness: `fnx` splits into the
// keyword and a trailing literal.
#[test]
fn test_keyword_precedence_prefix() {
    let lexed = Lexeme::from_literal(b"fnx".to_vec());
    assert_eq!(vec![kw(VarToken::Fn), lit("x")], lexed);
}

// A pending literal is flushed when the input ends.
#[test]
fn test_trailing_literal_flushed() {
    let lexed = Lexeme::from_literal(b"abc".to_vec());
    assert_eq!(vec![lit("abc")], lexed);
}

// A keyword head whose lookahead runs off the end of the input joins the
// literal instead of being dropped.
#[test]
fn test_keyword_head_at_end_kept() {
    let lexed = Lexeme::from_literal(b"f".to_vec());
    assert_eq!(vec![lit("f")], lexed);
    let lexed = Lexeme::from_literal(b"stru".to_vec());
    assert_eq!(vec![lit("stru")], lexed);
}

// The elision after punctuation takes the space run first, then the newline
// run, and stops there: a space after the newlines survives.
#[test]
fn test_elision_order_after_punctuation() {
    let lexed = Lexeme::from_literal(b";  \n\n x".to_vec());
    assert_eq!(vec![punct(Token::Semicolon), lit(" x")], lexed);
}

// The empty input lexes to no lexemes at all.
#[test]
fn test_empty_input() {
    let lexed = Lexeme::from_literal(Vec::new());
    assert_eq!(Vec::<Lexeme>::new(), lexed);
}
