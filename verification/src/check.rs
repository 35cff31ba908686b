//! The checker: validates every function call in a declaration sequence
//! against the declared functions.
//!
//! A call resolves when a `Function` node with the same name exists anywhere
//! in the sequence (first match in declaration order) and the call's argument
//! types equal, element by element, the parameters of that function.
//! Checking stops at the first violation.

use vstd::prelude::*;

use crate::lexer::{opt_lexeme_view, Lexeme, LexemeView, Token};
use crate::lexer::copy_bytes;
use crate::tree::{
    ast_views, bytes_eq, field_views, type_views, Ast, AstView, DynaType,
};

verus! {

/// What the tree builder expected at the point of a syntax error.
#[derive(Debug, Clone, Copy, PartialEq, Eq, Structural)]
pub enum Expected {
    /// A specific punctuation token.
    Punct(Token),
    /// Any literal span.
    Literal,
    /// Either a comma or a closing curly brace.
    CommaOrCloseCurly,
}

/// An error of the front end: a call to an undeclared function, a call whose
/// argument types differ from the declared parameter types, or malformed
/// syntax met by the tree builder.
#[derive(Debug, PartialEq, Eq)]
pub enum Error {
    /// A call names a function that is declared nowhere in the sequence.
    FunctionNotFound { name: Vec<u8> },
    /// A call's argument types do not equal the declared parameter types.
    TypeMismatch { name: Vec<u8>, expected: Vec<DynaType>, found: Vec<DynaType> },
    /// The tree builder expected one lexeme and found another (or the end of
    /// the stream), at the given position in the lexeme sequence.
    SyntaxError { expected: Expected, found: Option<Lexeme>, position: usize },
}

/// The mathematical image of an `Error`.
pub enum ErrorView {
    FunctionNotFound { name: Seq<u8> },
    TypeMismatch { name: Seq<u8>, expected: Seq<Seq<u8>>, found: Seq<Seq<u8>> },
    SyntaxError { expected: Expected, found: Option<LexemeView>, position: nat },
}

impl View for Error {
    type V = ErrorView;

    open spec fn view(&self) -> ErrorView {
        match self {
            Error::FunctionNotFound { name } => ErrorView::FunctionNotFound { name: name@ },
            Error::TypeMismatch { name, expected, found } => (ErrorView::TypeMismatch {
                name: name@,
                expected: type_views(expected@),
                found: type_views(found@),
            }),
            Error::SyntaxError { expected, found, position } => (ErrorView::SyntaxError {
                expected: *expected,
                found: opt_lexeme_view(*found),
                position: *position as nat,
            }),
        }
    }
}

/// The signature of the first `Function` node named `name`, scanning the
/// whole sequence in declaration order from index `i`; `None` when there is
/// no such node.
pub open spec fn spec_lookup(t: Seq<AstView>, name: Seq<u8>, i: nat) -> Option<
    Seq<(Seq<u8>, Seq<u8>)>,
>
    decreases t.len() - i,
{
    if i >= t.len() {
        None
    } else {
        match t[i as int] {
            AstView::Function { name: fname, signature, .. } => {
                if fname == name {
                    Some(signature)
                } else {
                    spec_lookup(t, name, i + 1)
                }
            },
            _ => spec_lookup(t, name, i + 1),
        }
    }
}

/// The parameter types of a signature, in declaration order.
pub open spec fn param_types(sig: Seq<(Seq<u8>, Seq<u8>)>) -> Seq<Seq<u8>> {
    sig.map_values(|p: (Seq<u8>, Seq<u8>)| p.1)
}

/// The checker as a mathematical function: scans the sequence in order and
/// reports the first call that does not resolve, either because no function
/// of that name exists or because the types differ.
pub open spec fn spec_check_from(t: Seq<AstView>, i: nat) -> Result<(), ErrorView>
    decreases t.len() - i,
{
    if i >= t.len() {
        Ok(())
    } else {
        match t[i as int] {
            AstView::FunctionCall { name, signature } => {
                match spec_lookup(t, name, 0) {
                    None => Err(ErrorView::FunctionNotFound { name }),
                    Some(sig) => {
                        if signature == param_types(sig) {
                            spec_check_from(t, i + 1)
                        } else {
                            Err(
                                ErrorView::TypeMismatch {
                                    name,
                                    expected: param_types(sig),
                                    found: signature,
                                },
                            )
                        }
                    },
                }
            },
            _ => spec_check_from(t, i + 1),
        }
    }
}

/// What the checker returns for a whole declaration sequence.
pub open spec fn spec_check(t: Seq<AstView>) -> Result<(), ErrorView> {
    spec_check_from(t, 0)
}

/// Whether the node at index `k` is a `Function` node named `name`.
pub open spec fn is_function_named(t: Seq<AstView>, k: int, name: Seq<u8>) -> bool {
    t[k] matches AstView::Function { name: fname, .. } && fname == name
}

/// Finds the first `Function` node with the given name, by linear scan in
/// declaration order: the returned index holds a `Function` named
/// `fn_name`, no earlier index does, and its signature is the one the
/// lookup resolves to; `None` exactly when no `Function` of that name
/// stands anywhere in the sequence.
fn tree_lookup_function(tree: &Vec<Ast>, fn_name: &Vec<u8>) -> (r: Option<usize>)
    ensures
        match r {
            Some(idx) => idx < tree@.len() && is_function_named(
                ast_views(tree@),
                idx as int,
                fn_name@,
            ) && (forall|k: int|
                0 <= k < idx ==> !is_function_named(ast_views(tree@), k, fn_name@)) && (ast_views(
                tree@,
            )[idx as int] matches AstView::Function { signature, .. } && spec_lookup(
                ast_views(tree@),
                fn_name@,
                0,
            ) == Some(signature)),
            None => spec_lookup(ast_views(tree@), fn_name@, 0) is None,
        },
{
    let ghost t = ast_views(tree@);
    let mut i: usize = 0;
    while i < tree.len()
        invariant
            i <= tree@.len(),
            t == ast_views(tree@),
            spec_lookup(t, fn_name@, 0) == spec_lookup(t, fn_name@, i as nat),
            forall|k: int| 0 <= k < i ==> !is_function_named(t, k, fn_name@),
        decreases tree@.len() - i,
    {
        match &tree[i] {
            Ast::Function(f) => {
                if bytes_eq(&f.name, fn_name) {
                    return Some(i);
                }
            },
            _ => {},
        }
        i += 1;
    }
    None
}

/// Copies the parameter types out of a function signature, in order.
fn copy_param_types(sig: &Vec<(Vec<u8>, DynaType)>) -> (r: Vec<DynaType>)
    ensures
        type_views(r@) == param_types(field_views(sig@)),
{
    let mut r: Vec<DynaType> = Vec::new();
    let mut k: usize = 0;
    while k < sig.len()
        invariant
            k <= sig@.len(),
            r@.len() == k,
            forall|j: int|
                0 <= j < k ==> type_views(r@)[j] == param_types(field_views(sig@))[j],
        decreases sig@.len() - k,
    {
        let pair = &sig[k];
        let copied = copy_bytes(&pair.1.name);
        let ghost cv = copied@;
        let ghost r0 = r@;
        r.push(DynaType { name: copied });
        proof {
            assert forall|j: int|
                0 <= j < k + 1 implies type_views(r@)[j] == param_types(field_views(sig@))[j] by {
                if j < k {
                    assert(r@[j] == r0[j]);
                    assert(type_views(r0)[j] == param_types(field_views(sig@))[j]);
                } else {
                    assert(r@[j]@ == cv);
                    assert(param_types(field_views(sig@))[j] == sig@[j].1@);
                }
            }
        }
        k += 1;
    }
    proof {
        assert(type_views(r@) =~= param_types(field_views(sig@)));
    }
    r
}

/// Copies a list of types.
fn copy_types(types: &Vec<DynaType>) -> (r: Vec<DynaType>)
    ensures
        type_views(r@) == type_views(types@),
{
    let mut r: Vec<DynaType> = Vec::new();
    let mut k: usize = 0;
    while k < types.len()
        invariant
            k <= types@.len(),
            r@.len() == k,
            forall|j: int| 0 <= j < k ==> type_views(r@)[j] == type_views(types@)[j],
        decreases types@.len() - k,
    {
        let ty = &types[k];
        let copied = copy_bytes(&ty.name);
        let ghost cv = copied@;
        let ghost r0 = r@;
        r.push(DynaType { name: copied });
        proof {
            assert forall|j: int|
                0 <= j < k + 1 implies type_views(r@)[j] == type_views(types@)[j] by {
                if j < k {
                    assert(r@[j] == r0[j]);
                    assert(type_views(r0)[j] == type_views(types@)[j]);
                } else {
                    assert(r@[j]@ == cv);
                }
            }
        }
        k += 1;
    }
    proof {
        assert(type_views(r@) =~= type_views(types@));
    }
    r
}

/// Whether the argument types of a call equal, element by element and in
/// length, the parameter types of a function signature.
fn signatures_match(call_sig: &Vec<DynaType>, fn_sig: &Vec<(Vec<u8>, DynaType)>) -> (r: bool)
    ensures
        r == (type_views(call_sig@) == param_types(field_views(fn_sig@))),
{
    let ghost a = type_views(call_sig@);
    let ghost b = param_types(field_views(fn_sig@));
    if call_sig.len() != fn_sig.len() {
        proof {
            assert(a.len() != b.len());
        }
        return false;
    }
    let mut m: usize = 0;
    while m < call_sig.len()
        invariant
            m <= call_sig@.len(),
            call_sig@.len() == fn_sig@.len(),
            a == type_views(call_sig@),
            b == param_types(field_views(fn_sig@)),
            forall|k: int| 0 <= k < m ==> a[k] == b[k],
        decreases call_sig@.len() - m,
    {
        let ca = &call_sig[m];
        let pa = &fn_sig[m];
        if !bytes_eq(&ca.name, &pa.1.name) {
            proof {
                assert(a[m as int] != b[m as int]);
            }
            return false;
        }
        m += 1;
    }
    proof {
        assert(a =~= b);
    }
    true
}

/// Checks every call of the sequence, by reference.
pub(crate) fn check_calls(tree: &Vec<Ast>) -> (r: Result<(), Error>)
    ensures
        ({
            let s = spec_check(ast_views(tree@));
            match r {
                Ok(u) => s is Ok,
                Err(e) => s matches Err(se) && e@ == se,
            }
        }),
{
    let ghost t = ast_views(tree@);
    let mut i: usize = 0;
    while i < tree.len()
        invariant
            i <= tree@.len(),
            t == ast_views(tree@),
            spec_check_from(t, 0) == spec_check_from(t, i as nat),
        decreases tree@.len() - i,
    {
        match &tree[i] {
            Ast::FunctionCall(call) => {
                match tree_lookup_function(tree, &call.fn_name) {
                    None => {
                        return Err(Error::FunctionNotFound { name: copy_bytes(&call.fn_name) });
                    },
                    Some(idx) => {
                        match &tree[idx] {
                            Ast::Function(f) => {
                                if !signatures_match(&call.signature, &f.signature) {
                                    let expected = copy_param_types(&f.signature);
                                    let found = copy_types(&call.signature);
                                    return Err(
                                        Error::TypeMismatch {
                                            name: copy_bytes(&call.fn_name),
                                            expected,
                                            found,
                                        },
                                    );
                                }
                            },
                            _ => {
                                proof {
                                    assert(false);
                                }
                            },
                        }
                    },
                }
            },
            _ => {},
        }
        i += 1;
    }
    Ok(())
}

/// Checks that every function call of the declaration sequence refers to a
/// declared function with equal argument types.  Returns exactly what
/// `spec_check` describes: `Ok` when every call resolves, otherwise the
/// first violation in declaration order.
pub fn type_and_fn_call_check(tree: Vec<Ast>) -> (r: Result<(), Error>)
    ensures
        ({
            let s = spec_check(ast_views(tree@));
            match r {
                Ok(u) => s is Ok,
                Err(e) => s matches Err(se) && e@ == se,
            }
        }),
{
    check_calls(&tree)
}

/// Whether the node at index `i`, if it is a call, resolves: a function of
/// the same name exists and its parameter types equal the call's argument
/// types.
pub open spec fn call_resolves(t: Seq<AstView>, i: int) -> bool {
    t[i] matches AstView::FunctionCall { name, signature } ==> (spec_lookup(t, name, 0) matches
        Some(sig) && signature == param_types(sig))
}

proof fn lemma_check_from_ok_iff(t: Seq<AstView>, i: nat)
    ensures
        spec_check_from(t, i) is Ok <==> (forall|j: int|
            i <= j < t.len() ==> call_resolves(t, j)),
    decreases t.len() - i,
{
    if i >= t.len() {
    } else {
        lemma_check_from_ok_iff(t, i + 1);
        if spec_check_from(t, i) is Ok {
            assert(call_resolves(t, i as int));
            assert forall|j: int| i <= j < t.len() implies call_resolves(t, j) by {
                if j > i {
                    assert(call_resolves(t, j));
                }
            }
        }
        if forall|j: int| i <= j < t.len() ==> call_resolves(t, j) {
            assert(call_resolves(t, i as int));
            assert(spec_check_from(t, i) is Ok);
        }
    }
}

/// The law of call resolution: checking a declaration sequence succeeds if
/// and only if every call in it resolves against some declared function with
/// equal argument types.  In particular a call whose name no `Function` node
/// carries, or whose types differ from the declared ones, makes the checker
/// return an error.
pub proof fn lemma_check_ok_iff(t: Seq<AstView>)
    ensures
        spec_check(t) is Ok <==> (forall|j: int| 0 <= j < t.len() ==> call_resolves(t, j)),
{
    lemma_check_from_ok_iff(t, 0);
}

} // verus!
