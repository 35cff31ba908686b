use dynalang::check::Error;
use dynalang::run_pipeline;
use dynalang::tree::Ast;

const DEMO: &str = "
    fn main(string: String) {
        let array = [0, 1, 2];

        if true { test } else {};
    }

    struct X {
        value: Type,
        another_value: String,
    }

    enum Option {
        Some(String),
        None,
    }

    main(String)
    ";

// Running the whole pipeline twice on the same byte sequence yields
// structurally identical declaration sequences and identical results.
#[test]
fn test_pipeline_idempotent() {
    let r1 = run_pipeline(DEMO.as_bytes().to_vec());
    let r2 = run_pipeline(DEMO.as_bytes().to_vec());
    assert_eq!(r1, r2);
    assert!(r1.is_ok());
}

// The demo program: one function, one structure, one enumeration and one
// resolving call, behind the root sentinel.
#[test]
fn test_pipeline_demo_shape() {
    let t = run_pipeline(DEMO.as_bytes().to_vec()).unwrap();
    assert_eq!(t.len(), 5);
    assert_eq!(t[0], Ast::Genesis);
    assert!(matches!(t[1], Ast::Function(_)));
    assert!(matches!(t[2], Ast::Structure(_)));
    assert!(matches!(t[3], Ast::Enumeration(_)));
    assert!(matches!(t[4], Ast::FunctionCall(_)));
}

// A failing check surfaces through the pipeline as its error.
#[test]
fn test_pipeline_propagates_check_error() {
    let r = run_pipeline(b"nowhere(Int)".to_vec());
    assert_eq!(r, Err(Error::FunctionNotFound { name: b"nowhere".to_vec() }));
}

// Idempotence holds for failing runs too.
#[test]
fn test_pipeline_idempotent_on_error() {
    let r1 = run_pipeline(b"struct S {".to_vec());
    let r2 = run_pipeline(b"struct S {".to_vec());
    assert_eq!(r1, r2);
    assert!(r1.is_err());
}
