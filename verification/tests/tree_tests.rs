use dynalang::check::{Error, Expected};
use dynalang::lexer::{Lexeme, Token, VarToken};
use dynalang::tree::{tree, Ast, DynaType};

fn ty(s: &str) -> DynaType {
    DynaType { name: s.as_bytes().to_vec() }
}

fn parse(code: &str) -> Result<Vec<Ast>, Error> {
    tree(Lexeme::from_literal(code.as_bytes().to_vec()))
}

// Round trip for a structure: names and types come out space-stripped, in
// declaration order, behind the root sentinel.
#[test]
fn test_struct_round_trip() {
    let t = parse("struct P { x:Int, y:Int }").unwrap();
    assert_eq!(t.len(), 2);
    assert_eq!(t[0], Ast::Genesis);
    match &t[1] {
        Ast::Structure(s) => {
            assert_eq!(s.name, b"P".to_vec());
            assert_eq!(
                s.fields,
                vec![(b"x".to_vec(), ty("Int")), (b"y".to_vec(), ty("Int"))]
            );
        },
        other => panic!("expected a structure, got {:?}", other),
    }
}

// A function declaration: one parameter pair and an opaque body span.
#[test]
fn test_function_declaration() {
    let t = parse("fn f(a:Int){}").unwrap();
    assert_eq!(t.len(), 2);
    match &t[1] {
        Ast::Function(f) => {
            assert_eq!(f.name, b"f".to_vec());
            assert_eq!(f.signature, vec![(b"a".to_vec(), ty("Int"))]);
            assert_eq!(f.body, Vec::<Lexeme>::new());
        },
        other => panic!("expected a function, got {:?}", other),
    }
}

// An enumeration with a tuple variant and a unit variant.
#[test]
fn test_enum_declaration() {
    let t = parse("enum Option { Some(String), None, }").unwrap();
    assert_eq!(t.len(), 2);
    match &t[1] {
        Ast::Enumeration(e) => {
            assert_eq!(e.name, b"Option".to_vec());
            assert_eq!(
                e.fields,
                vec![
                    (b"Some".to_vec(), Some(ty("String"))),
                    (b"None".to_vec(), None),
                ]
            );
        },
        other => panic!("expected an enumeration, got {:?}", other),
    }
}

// A bare literal followed by parentheses is a call; its name and argument
// type are space-stripped.
#[test]
fn test_call_site() {
    let t = parse("f(Int)").unwrap();
    assert_eq!(t.len(), 2);
    match &t[1] {
        Ast::FunctionCall(c) => {
            assert_eq!(c.fn_name, b"f".to_vec());
            assert_eq!(c.signature, vec![ty("Int")]);
        },
        other => panic!("expected a call, got {:?}", other),
    }
}

// Function names, parameter names and parameter types are space-stripped
// like every other stored identifier.
#[test]
fn test_function_names_stripped() {
    let t = parse("fn f (a : Int) {}").unwrap();
    assert_eq!(t.len(), 2);
    match &t[1] {
        Ast::Function(f) => {
            assert_eq!(f.name, b"f".to_vec());
            assert_eq!(f.signature, vec![(b"a".to_vec(), ty("Int"))]);
        },
        other => panic!("expected a function, got {:?}", other),
    }
}

// A function body runs to the closing curly brace that matches the opening
// one: nested braces stay inside the opaque span, and nothing inside the
// span is parsed as a top-level construct.
#[test]
fn test_body_spans_matching_brace() {
    let t = parse("fn f(){ if a { } b(Int) }").unwrap();
    assert_eq!(t.len(), 2);
    match &t[1] {
        Ast::Function(f) => {
            assert_eq!(
                f.body,
                vec![
                    Lexeme::VariableByteToken(VarToken::If),
                    Lexeme::TokenLiteral(b" a ".to_vec()),
                    Lexeme::ByteToken(Token::OpenCurly),
                    Lexeme::ByteToken(Token::CloseCurly),
                    Lexeme::TokenLiteral(b"b".to_vec()),
                    Lexeme::ByteToken(Token::OpenParen),
                    Lexeme::TokenLiteral(b"Int".to_vec()),
                    Lexeme::ByteToken(Token::CloseParen),
                ]
            );
        },
        other => panic!("expected a function, got {:?}", other),
    }
}

// A comma after a unit variant continues the variant loop.
#[test]
fn test_enum_unit_variants_continue() {
    let t = parse("enum X { A, B }").unwrap();
    assert_eq!(t.len(), 2);
    match &t[1] {
        Ast::Enumeration(e) => {
            assert_eq!(e.name, b"X".to_vec());
            assert_eq!(
                e.fields,
                vec![(b"A".to_vec(), None), (b"B".to_vec(), None)]
            );
        },
        other => panic!("expected an enumeration, got {:?}", other),
    }
}

// A structure whose closing curly brace is missing is a syntax error naming
// the expectation, what was found, and the stream position.
#[test]
fn test_unclosed_struct_is_syntax_error() {
    let r = parse("struct S {");
    assert_eq!(
        r,
        Err(Error::SyntaxError {
            expected: Expected::Punct(Token::CloseCurly),
            found: None,
            position: 3,
        })
    );
}

// A function name not followed by an open parenthesis is a syntax error
// carrying the lexeme that was found instead.
#[test]
fn test_fn_without_paren_is_syntax_error() {
    let r = parse("fn f;");
    assert_eq!(
        r,
        Err(Error::SyntaxError {
            expected: Expected::Punct(Token::OpenParen),
            found: Some(Lexeme::ByteToken(Token::Semicolon)),
            position: 2,
        })
    );
}

// A parameter name without a colon after it is a syntax error.
#[test]
fn test_fn_param_without_colon_is_syntax_error() {
    let r = parse("fn f(a){}");
    assert_eq!(
        r,
        Err(Error::SyntaxError {
            expected: Expected::Punct(Token::Colon),
            found: Some(Lexeme::ByteToken(Token::CloseParen)),
            position: 4,
        })
    );
}

// Lexemes that open no construct are skipped without producing a node.
#[test]
fn test_stray_lexemes_produce_no_nodes() {
    let t = parse("; = & [ ]").unwrap();
    assert_eq!(t, vec![Ast::Genesis]);
}
