use dynalang::check::{type_and_fn_call_check, Error};
use dynalang::lexer::Lexeme;
use dynalang::tree::{tree, Ast, DynaType};

fn ty(s: &str) -> DynaType {
    DynaType { name: s.as_bytes().to_vec() }
}

fn pipeline(code: &str) -> Result<(), Error> {
    let t = tree(Lexeme::from_literal(code.as_bytes().to_vec())).unwrap();
    type_and_fn_call_check(t)
}

// A call whose argument types equal the declared parameter types resolves.
#[test]
fn test_call_resolution_success() {
    assert_eq!(pipeline("fn f(a:Int){} f(Int)"), Ok(()));
}

// A call to a name that no function declaration carries fails, naming the
// unresolved callee.
#[test]
fn test_call_resolution_missing_function() {
    assert_eq!(
        pipeline("g(Int)"),
        Err(Error::FunctionNotFound { name: b"g".to_vec() })
    );
}

// A call whose argument types differ from the declared parameter types
// fails, citing the expected and the provided types.
#[test]
fn test_call_resolution_type_mismatch() {
    assert_eq!(
        pipeline("fn f(a:Int){} f(String)"),
        Err(Error::TypeMismatch {
            name: b"f".to_vec(),
            expected: vec![ty("Int")],
            found: vec![ty("String")],
        })
    );
}

// The function may be declared after the call: the lookup scans the whole
// sequence, not only what precedes the call site.
#[test]
fn test_call_before_declaration_resolves() {
    assert_eq!(pipeline("f(Int) fn f(a:Int){}"), Ok(()));
}

// A call with no argument against a function with no parameter resolves; a
// missing argument against a declared parameter does not.
#[test]
fn test_arity_checking() {
    assert_eq!(pipeline("fn f(){} f()"), Ok(()));
    assert_eq!(
        pipeline("fn f(a:Int){} f()"),
        Err(Error::TypeMismatch {
            name: b"f".to_vec(),
            expected: vec![ty("Int")],
            found: vec![],
        })
    );
}

// A spaced function-name literal is stripped when stored, so a call to the
// stripped name resolves.
#[test]
fn test_spaced_function_name_resolves() {
    assert_eq!(pipeline("fn a b(){} ab()"), Ok(()));
}

// A sequence without calls passes, whatever else it declares.
#[test]
fn test_no_calls_passes() {
    assert_eq!(pipeline("struct P { x:Int }"), Ok(()));
    assert_eq!(type_and_fn_call_check(vec![Ast::Genesis]), Ok(()));
}
