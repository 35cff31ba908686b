//! The tree builder: assembles a lexeme sequence into a flat, ordered list
//! of top-level declaration nodes.
//!
//! The list always begins with the `Genesis` root sentinel.  Function bodies
//! are captured as opaque lexeme spans, running to the matching closing
//! curly brace, and are never parsed.  Malformed input
//! yields a structured `SyntaxError` naming the expected lexeme, the lexeme
//! found, and the position in the lexeme stream.

use vstd::prelude::*;

use crate::check::{Error, ErrorView, Expected};
use crate::lexer::{
    clone_lexeme, lexeme_views, opt_lexeme_view, Lexeme, LexemeView, Token, VarToken,
};

verus! {

/// A type name, as the stripped bytes of the literal that spelled it.
#[derive(Debug, PartialEq, Eq)]
pub struct DynaType {
    pub name: Vec<u8>,
}

impl View for DynaType {
    type V = Seq<u8>;

    open spec fn view(&self) -> Seq<u8> {
        self.name@
    }
}

/// A structure declaration: a name and a mapping field name to type name.
/// The builder keeps each key once, in first-insertion order.
#[derive(Debug, PartialEq, Eq)]
pub struct DynaStruct {
    pub name: Vec<u8>,
    pub fields: Vec<(Vec<u8>, DynaType)>,
}

/// An enumeration declaration: a name and a mapping variant name to an
/// optional single associated type.
#[derive(Debug, PartialEq, Eq)]
pub struct DynaEnum {
    pub name: Vec<u8>,
    pub fields: Vec<(Vec<u8>, Option<DynaType>)>,
}

/// A function declaration: a name, a parameter mapping (the grammar admits
/// at most one entry), and an unparsed body span.
#[derive(Debug, PartialEq, Eq)]
pub struct DynaFunction {
    pub name: Vec<u8>,
    pub body: Vec<Lexeme>,
    pub signature: Vec<(Vec<u8>, DynaType)>,
}

/// A call site: the callee name and the argument type list (the grammar
/// admits at most one entry).
#[derive(Debug, PartialEq, Eq)]
pub struct DynaCall {
    pub fn_name: Vec<u8>,
    pub signature: Vec<DynaType>,
}

/// One declaration node.
#[derive(Debug, PartialEq, Eq)]
pub enum Ast {
    Structure(DynaStruct),
    Enumeration(DynaEnum),
    Function(DynaFunction),
    FunctionCall(DynaCall),
    /// The root sentinel that starts every declaration sequence.
    Genesis,
}

/// The mathematical image of a declaration node.
pub enum AstView {
    Structure { name: Seq<u8>, fields: Seq<(Seq<u8>, Seq<u8>)> },
    Enumeration { name: Seq<u8>, fields: Seq<(Seq<u8>, Option<Seq<u8>>)> },
    Function { name: Seq<u8>, signature: Seq<(Seq<u8>, Seq<u8>)>, body: Seq<LexemeView> },
    FunctionCall { name: Seq<u8>, signature: Seq<Seq<u8>> },
    Genesis,
}

/// The views of a field list.
pub open spec fn field_views(s: Seq<(Vec<u8>, DynaType)>) -> Seq<(Seq<u8>, Seq<u8>)> {
    s.map_values(|p: (Vec<u8>, DynaType)| (p.0@, p.1@))
}

/// The views of a variant list.
pub open spec fn variant_views(s: Seq<(Vec<u8>, Option<DynaType>)>) -> Seq<
    (Seq<u8>, Option<Seq<u8>>),
> {
    s.map_values(
        |p: (Vec<u8>, Option<DynaType>)|
            (
                p.0@,
                match p.1 {
                    Some(t) => Some(t@),
                    None => None,
                },
            ),
    )
}

/// The views of a type list.
pub open spec fn type_views(s: Seq<DynaType>) -> Seq<Seq<u8>> {
    s.map_values(|t: DynaType| t@)
}

impl View for Ast {
    type V = AstView;

    open spec fn view(&self) -> AstView {
        match self {
            Ast::Structure(s) => (AstView::Structure {
                name: s.name@,
                fields: field_views(s.fields@),
            }),
            Ast::Enumeration(e) => (AstView::Enumeration {
                name: e.name@,
                fields: variant_views(e.fields@),
            }),
            Ast::Function(f) => (AstView::Function {
                name: f.name@,
                signature: field_views(f.signature@),
                body: lexeme_views(f.body@),
            }),
            Ast::FunctionCall(c) => (AstView::FunctionCall {
                name: c.fn_name@,
                signature: type_views(c.signature@),
            }),
            Ast::Genesis => AstView::Genesis,
        }
    }
}

/// The views of a sequence of declaration nodes.
pub open spec fn ast_views(s: Seq<Ast>) -> Seq<AstView> {
    s.map_values(|a: Ast| a@)
}

/// The views of an optional node, as a list of zero or one views.
pub open spec fn opt_node_views(node: Option<Ast>) -> Seq<AstView> {
    match node {
        Some(a) => seq![a@],
        None => Seq::empty(),
    }
}

/// The lexeme at position `i` of the stream, `None` past its end.
pub open spec fn peek_at(ls: Seq<LexemeView>, i: nat) -> Option<LexemeView> {
    if i < ls.len() {
        Some(ls[i as int])
    } else {
        None
    }
}

/// A literal with every space byte removed: how the builder turns a raw
/// literal span into an identifier or type name.
pub open spec fn strip_spaces(s: Seq<u8>) -> Seq<u8>
    decreases s.len(),
{
    if s.len() == 0 {
        Seq::empty()
    } else if s[0] == 32 {
        strip_spaces(s.skip(1))
    } else {
        seq![s[0]] + strip_spaces(s.skip(1))
    }
}

/// Inserts a key into a mapping kept as a sequence of pairs: the value of
/// the first pair with this key is replaced, or the pair is appended when
/// the key is new.  Keys stay unique and keep first-insertion order.
pub open spec fn upsert<V>(m: Seq<(Seq<u8>, V)>, key: Seq<u8>, value: V) -> Seq<(Seq<u8>, V)>
    decreases m.len(),
{
    if m.len() == 0 {
        seq![(key, value)]
    } else if m[0].0 == key {
        seq![(key, value)] + m.skip(1)
    } else {
        seq![m[0]] + upsert(m.skip(1), key, value)
    }
}

/// What parsing one construct yields: the nodes produced (zero or one), and
/// the position where the top-level scan resumes.  The body is the opaque
/// lexeme span strictly between the opening curly brace and the closing
/// curly brace that matches it.
pub open spec fn spec_parse_fn_rest(
    ls: Seq<LexemeView>,
    fn_name: Seq<u8>,
    signature: Seq<(Seq<u8>, Seq<u8>)>,
    k: nat,
) -> Result<(Seq<AstView>, nat), ErrorView> {
    if peek_at(ls, k) != Some(LexemeView::Punct(Token::CloseParen)) {
        Err(
            ErrorView::SyntaxError {
                expected: Expected::Punct(Token::CloseParen),
                found: peek_at(ls, k),
                position: k,
            },
        )
    } else if peek_at(ls, k + 1) != Some(LexemeView::Punct(Token::OpenCurly)) {
        Ok((Seq::empty(), k + 1))
    } else {
        match find_close_curly(ls, k + 2, 0) {
            Some(c) => Ok(
                (
                    seq![
                        AstView::Function {
                            name: fn_name,
                            signature,
                            body: ls.subrange(k as int + 2, c as int),
                        },
                    ],
                    c + 1,
                ),
            ),
            None => Err(
                ErrorView::SyntaxError {
                    expected: Expected::Punct(Token::CloseCurly),
                    found: None,
                    position: ls.len(),
                },
            ),
        }
    }
}

/// The position of the closing curly brace that matches at nesting depth
/// `depth`, scanning from `i`: an opening brace deepens the nesting, a
/// closing brace at depth zero is the match.
pub open spec fn find_close_curly(ls: Seq<LexemeView>, i: nat, depth: nat) -> Option<nat>
    decreases ls.len() - i,
{
    if i >= ls.len() {
        None
    } else if ls[i as int] matches LexemeView::Punct(Token::CloseCurly) {
        if depth == 0 {
            Some(i)
        } else {
            find_close_curly(ls, i + 1, (depth - 1) as nat)
        }
    } else if ls[i as int] matches LexemeView::Punct(Token::OpenCurly) {
        find_close_curly(ls, i + 1, depth + 1)
    } else {
        find_close_curly(ls, i + 1, depth)
    }
}

/// Parsing a function declaration; `i` is the position after the `fn`
/// keyword.  Without a name literal nothing is produced.  The name, the
/// parameter name and the parameter type are stripped of spaces, like
/// every other stored identifier.
pub open spec fn spec_parse_fn(ls: Seq<LexemeView>, i: nat) -> Result<
    (Seq<AstView>, nat),
    ErrorView,
> {
    match peek_at(ls, i) {
        Some(LexemeView::Lit(fn_name)) => {
            if peek_at(ls, i + 1) != Some(LexemeView::Punct(Token::OpenParen)) {
                Err(
                    ErrorView::SyntaxError {
                        expected: Expected::Punct(Token::OpenParen),
                        found: peek_at(ls, i + 1),
                        position: i + 1,
                    },
                )
            } else {
                match peek_at(ls, i + 2) {
                    Some(LexemeView::Lit(arg_name)) => {
                        if peek_at(ls, i + 3) != Some(LexemeView::Punct(Token::Colon)) {
                            Err(
                                ErrorView::SyntaxError {
                                    expected: Expected::Punct(Token::Colon),
                                    found: peek_at(ls, i + 3),
                                    position: i + 3,
                                },
                            )
                        } else {
                            match peek_at(ls, i + 4) {
                                Some(LexemeView::Lit(arg_type)) => spec_parse_fn_rest(
                                    ls,
                                    strip_spaces(fn_name),
                                    seq![(strip_spaces(arg_name), strip_spaces(arg_type))],
                                    i + 5,
                                ),
                                _ => Err(
                                    ErrorView::SyntaxError {
                                        expected: Expected::Literal,
                                        found: peek_at(ls, i + 4),
                                        position: i + 4,
                                    },
                                ),
                            }
                        }
                    },
                    _ => spec_parse_fn_rest(ls, strip_spaces(fn_name), Seq::empty(), i + 2),
                }
            }
        },
        _ => Ok((Seq::empty(), i)),
    }
}

/// The field loop of a structure declaration: literal, colon, literal,
/// optionally a comma to continue.  A field name not followed by a colon
/// starts the loop over on the next lexeme; a missing type ends the loop.
pub open spec fn spec_parse_struct_fields(
    ls: Seq<LexemeView>,
    j: nat,
    acc: Seq<(Seq<u8>, Seq<u8>)>,
) -> (Seq<(Seq<u8>, Seq<u8>)>, nat)
    decreases ls.len() - j,
{
    match peek_at(ls, j) {
        Some(LexemeView::Lit(raw_field)) => {
            if peek_at(ls, j + 1) == Some(LexemeView::Punct(Token::Colon)) {
                match peek_at(ls, j + 2) {
                    Some(LexemeView::Lit(raw_type)) => {
                        let acc2 = upsert(acc, strip_spaces(raw_field), strip_spaces(raw_type));
                        if peek_at(ls, j + 3) == Some(LexemeView::Punct(Token::Comma)) {
                            spec_parse_struct_fields(ls, j + 4, acc2)
                        } else {
                            (acc2, j + 3)
                        }
                    },
                    _ => (acc, j + 2),
                }
            } else {
                spec_parse_struct_fields(ls, j + 1, acc)
            }
        },
        _ => (acc, j),
    }
}

/// Parsing a structure declaration; `i` is the position after the `struct`
/// keyword.  Name and field names are stripped of spaces.  The closing curly
/// brace is required.
pub open spec fn spec_parse_struct(ls: Seq<LexemeView>, i: nat) -> Result<
    (Seq<AstView>, nat),
    ErrorView,
> {
    match peek_at(ls, i) {
        Some(LexemeView::Lit(raw_name)) => {
            if peek_at(ls, i + 1) != Some(LexemeView::Punct(Token::OpenCurly)) {
                Ok((Seq::empty(), i + 1))
            } else {
                let (fields, p) = spec_parse_struct_fields(ls, i + 2, Seq::empty());
                if peek_at(ls, p) == Some(LexemeView::Punct(Token::CloseCurly)) {
                    Ok(
                        (
                            seq![AstView::Structure { name: strip_spaces(raw_name), fields }],
                            p + 1,
                        ),
                    )
                } else {
                    Err(
                        ErrorView::SyntaxError {
                            expected: Expected::Punct(Token::CloseCurly),
                            found: peek_at(ls, p),
                            position: p,
                        },
                    )
                }
            }
        },
        _ => Ok((Seq::empty(), i)),
    }
}

/// The variant loop of an enumeration declaration: a literal, optionally
/// followed by a parenthesised type literal; a comma after a variant
/// continues the loop, and a unit variant also continues when another
/// literal follows at once.
pub open spec fn spec_parse_enum_variants(
    ls: Seq<LexemeView>,
    j: nat,
    acc: Seq<(Seq<u8>, Option<Seq<u8>>)>,
) -> Result<(Seq<(Seq<u8>, Option<Seq<u8>>)>, nat), ErrorView>
    decreases ls.len() - j,
{
    match peek_at(ls, j) {
        Some(LexemeView::Lit(raw_variant)) => {
            if peek_at(ls, j + 1) == Some(LexemeView::Punct(Token::OpenParen)) {
                match peek_at(ls, j + 2) {
                    Some(LexemeView::Lit(raw_type)) => {
                        let acc2 = upsert(
                            acc,
                            strip_spaces(raw_variant),
                            Some(strip_spaces(raw_type)),
                        );
                        if peek_at(ls, j + 3) == Some(LexemeView::Punct(Token::CloseParen)) {
                            if peek_at(ls, j + 4) == Some(LexemeView::Punct(Token::Comma)) {
                                spec_parse_enum_variants(ls, j + 5, acc2)
                            } else {
                                Ok((acc2, j + 4))
                            }
                        } else {
                            Err(
                                ErrorView::SyntaxError {
                                    expected: Expected::Punct(Token::CloseParen),
                                    found: peek_at(ls, j + 3),
                                    position: j + 3,
                                },
                            )
                        }
                    },
                    _ => Ok((acc, j + 2)),
                }
            } else {
                let acc2 = upsert(acc, strip_spaces(raw_variant), None);
                if peek_at(ls, j + 1) == Some(LexemeView::Punct(Token::Comma)) {
                    spec_parse_enum_variants(ls, j + 2, acc2)
                } else {
                    spec_parse_enum_variants(ls, j + 1, acc2)
                }
            }
        },
        _ => Ok((acc, j)),
    }
}

/// Parsing an enumeration declaration; `i` is the position after the `enum`
/// keyword.  The final lexeme consumed must be a comma or a closing curly
/// brace.
pub open spec fn spec_parse_enum(ls: Seq<LexemeView>, i: nat) -> Result<
    (Seq<AstView>, nat),
    ErrorView,
> {
    match peek_at(ls, i) {
        Some(LexemeView::Lit(raw_name)) => {
            if peek_at(ls, i + 1) != Some(LexemeView::Punct(Token::OpenCurly)) {
                Ok((Seq::empty(), i + 1))
            } else {
                match spec_parse_enum_variants(ls, i + 2, Seq::empty()) {
                    Err(e) => Err(e),
                    Ok((fields, p)) => {
                        if peek_at(ls, p) == Some(LexemeView::Punct(Token::CloseCurly)) || peek_at(
                            ls,
                            p,
                        ) == Some(LexemeView::Punct(Token::Comma)) {
                            Ok(
                                (
                                    seq![
                                        AstView::Enumeration {
                                            name: strip_spaces(raw_name),
                                            fields,
                                        },
                                    ],
                                    p + 1,
                                ),
                            )
                        } else {
                            Err(
                                ErrorView::SyntaxError {
                                    expected: Expected::CommaOrCloseCurly,
                                    found: peek_at(ls, p),
                                    position: p,
                                },
                            )
                        }
                    },
                }
            }
        },
        _ => Ok((Seq::empty(), i)),
    }
}

/// Parsing a call site; `i` is the position of the bare literal.  Without a
/// following open parenthesis the literal is consumed and nothing is
/// produced.  Callee name and argument type are stripped of spaces.
pub open spec fn spec_parse_call(ls: Seq<LexemeView>, i: nat) -> Result<
    (Seq<AstView>, nat),
    ErrorView,
> {
    match peek_at(ls, i) {
        Some(LexemeView::Lit(raw_name)) => {
            if peek_at(ls, i + 1) != Some(LexemeView::Punct(Token::OpenParen)) {
                Ok((Seq::empty(), i + 1))
            } else {
                let (types, k): (Seq<Seq<u8>>, nat) = match peek_at(ls, i + 2) {
                    Some(LexemeView::Lit(raw_type)) => (seq![strip_spaces(raw_type)], i + 3),
                    _ => (Seq::empty(), i + 2),
                };
                if peek_at(ls, k) == Some(LexemeView::Punct(Token::CloseParen)) {
                    Ok(
                        (
                            seq![
                                AstView::FunctionCall {
                                    name: strip_spaces(raw_name),
                                    signature: types,
                                },
                            ],
                            k + 1,
                        ),
                    )
                } else {
                    Err(
                        ErrorView::SyntaxError {
                            expected: Expected::Punct(Token::CloseParen),
                            found: peek_at(ls, k),
                            position: k,
                        },
                    )
                }
            }
        },
        _ => Ok((Seq::empty(), i + 1)),
    }
}

pub proof fn lemma_find_close_curly_bounds(ls: Seq<LexemeView>, i: nat, depth: nat)
    requires
        i <= ls.len(),
    ensures
        match find_close_curly(ls, i, depth) {
            Some(c) => i <= c < ls.len(),
            None => true,
        },
    decreases ls.len() - i,
{
    if i >= ls.len() {
    } else if ls[i as int] matches LexemeView::Punct(Token::CloseCurly) {
        if depth > 0 {
            lemma_find_close_curly_bounds(ls, i + 1, (depth - 1) as nat);
        }
    } else if ls[i as int] matches LexemeView::Punct(Token::OpenCurly) {
        lemma_find_close_curly_bounds(ls, i + 1, depth + 1);
    } else {
        lemma_find_close_curly_bounds(ls, i + 1, depth);
    }
}

pub proof fn lemma_parse_fn_rest_bounds(
    ls: Seq<LexemeView>,
    fn_name: Seq<u8>,
    signature: Seq<(Seq<u8>, Seq<u8>)>,
    k: nat,
)
    requires
        k <= ls.len(),
    ensures
        match spec_parse_fn_rest(ls, fn_name, signature, k) {
            Ok((nodes, j)) => k <= j <= ls.len(),
            Err(e) => true,
        },
{
    if peek_at(ls, k) == Some(LexemeView::Punct(Token::CloseParen)) && peek_at(ls, k + 1)
        == Some(LexemeView::Punct(Token::OpenCurly)) {
        lemma_find_close_curly_bounds(ls, k + 2, 0);
    }
}

pub proof fn lemma_parse_fn_bounds(ls: Seq<LexemeView>, i: nat)
    requires
        i <= ls.len(),
    ensures
        match spec_parse_fn(ls, i) {
            Ok((nodes, j)) => i <= j <= ls.len(),
            Err(e) => true,
        },
{
    match peek_at(ls, i) {
        Some(LexemeView::Lit(fn_name)) => {
            if peek_at(ls, i + 1) == Some(LexemeView::Punct(Token::OpenParen)) {
                match peek_at(ls, i + 2) {
                    Some(LexemeView::Lit(arg_name)) => {
                        if peek_at(ls, i + 3) == Some(LexemeView::Punct(Token::Colon)) {
                            match peek_at(ls, i + 4) {
                                Some(LexemeView::Lit(arg_type)) => {
                                    lemma_parse_fn_rest_bounds(
                                        ls,
                                        strip_spaces(fn_name),
                                        seq![(strip_spaces(arg_name), strip_spaces(arg_type))],
                                        i + 5,
                                    );
                                },
                                _ => {},
                            }
                        }
                    },
                    _ => {
                        lemma_parse_fn_rest_bounds(ls, strip_spaces(fn_name), Seq::empty(), i + 2);
                    },
                }
            }
        },
        _ => {},
    }
}

pub proof fn lemma_parse_struct_fields_bounds(
    ls: Seq<LexemeView>,
    j: nat,
    acc: Seq<(Seq<u8>, Seq<u8>)>,
)
    requires
        j <= ls.len(),
    ensures
        j <= spec_parse_struct_fields(ls, j, acc).1 <= ls.len(),
    decreases ls.len() - j,
{
    match peek_at(ls, j) {
        Some(LexemeView::Lit(raw_field)) => {
            if peek_at(ls, j + 1) == Some(LexemeView::Punct(Token::Colon)) {
                match peek_at(ls, j + 2) {
                    Some(LexemeView::Lit(raw_type)) => {
                        if peek_at(ls, j + 3) == Some(LexemeView::Punct(Token::Comma)) {
                            lemma_parse_struct_fields_bounds(
                                ls,
                                j + 4,
                                upsert(acc, strip_spaces(raw_field), strip_spaces(raw_type)),
                            );
                        }
                    },
                    _ => {},
                }
            } else {
                lemma_parse_struct_fields_bounds(ls, j + 1, acc);
            }
        },
        _ => {},
    }
}

pub proof fn lemma_parse_struct_bounds(ls: Seq<LexemeView>, i: nat)
    requires
        i <= ls.len(),
    ensures
        match spec_parse_struct(ls, i) {
            Ok((nodes, j)) => i <= j <= ls.len(),
            Err(e) => true,
        },
{
    match peek_at(ls, i) {
        Some(LexemeView::Lit(raw_name)) => {
            if peek_at(ls, i + 1) == Some(LexemeView::Punct(Token::OpenCurly)) {
                lemma_parse_struct_fields_bounds(ls, i + 2, Seq::empty());
            }
        },
        _ => {},
    }
}

pub proof fn lemma_parse_enum_variants_bounds(
    ls: Seq<LexemeView>,
    j: nat,
    acc: Seq<(Seq<u8>, Option<Seq<u8>>)>,
)
    requires
        j <= ls.len(),
    ensures
        match spec_parse_enum_variants(ls, j, acc) {
            Ok((fields, p)) => j <= p <= ls.len(),
            Err(e) => true,
        },
    decreases ls.len() - j,
{
    match peek_at(ls, j) {
        Some(LexemeView::Lit(raw_variant)) => {
            if peek_at(ls, j + 1) == Some(LexemeView::Punct(Token::OpenParen)) {
                match peek_at(ls, j + 2) {
                    Some(LexemeView::Lit(raw_type)) => {
                        if peek_at(ls, j + 3) == Some(LexemeView::Punct(Token::CloseParen)) {
                            if peek_at(ls, j + 4) == Some(LexemeView::Punct(Token::Comma)) {
                                lemma_parse_enum_variants_bounds(
                                    ls,
                                    j + 5,
                                    upsert(
                                        acc,
                                        strip_spaces(raw_variant),
                                        Some(strip_spaces(raw_type)),
                                    ),
                                );
                            }
                        }
                    },
                    _ => {},
                }
            } else {
                let acc2 = upsert(acc, strip_spaces(raw_variant), None);
                if peek_at(ls, j + 1) == Some(LexemeView::Punct(Token::Comma)) {
                    lemma_parse_enum_variants_bounds(ls, j + 2, acc2);
                } else {
                    lemma_parse_enum_variants_bounds(ls, j + 1, acc2);
                }
            }
        },
        _ => {},
    }
}

pub proof fn lemma_parse_enum_bounds(ls: Seq<LexemeView>, i: nat)
    requires
        i <= ls.len(),
    ensures
        match spec_parse_enum(ls, i) {
            Ok((nodes, j)) => i <= j <= ls.len(),
            Err(e) => true,
        },
{
    match peek_at(ls, i) {
        Some(LexemeView::Lit(raw_name)) => {
            if peek_at(ls, i + 1) == Some(LexemeView::Punct(Token::OpenCurly)) {
                lemma_parse_enum_variants_bounds(ls, i + 2, Seq::empty());
            }
        },
        _ => {},
    }
}

pub proof fn lemma_parse_call_bounds(ls: Seq<LexemeView>, i: nat)
    requires
        i < ls.len(),
    ensures
        match spec_parse_call(ls, i) {
            Ok((nodes, j)) => i < j <= ls.len(),
            Err(e) => true,
        },
{
}

/// The tree builder as a mathematical function, scanning from position `i`:
/// the declaration nodes built from the rest of the stream, or the first
/// syntax error.  `fn`, `struct` and `enum` keywords and bare literals open
/// their constructs; every other lexeme at the top level is skipped.
pub open spec fn spec_tree_from(ls: Seq<LexemeView>, i: nat) -> Result<Seq<AstView>, ErrorView>
    decreases ls.len() - i,
{
    if i >= ls.len() {
        Ok(Seq::empty())
    } else {
        match ls[i as int] {
            LexemeView::Keyword(VarToken::Fn) => {
                proof {
                    lemma_parse_fn_bounds(ls, i + 1);
                }
                match spec_parse_fn(ls, i + 1) {
                    Ok((nodes, j)) => match spec_tree_from(ls, j) {
                        Ok(rest) => Ok(nodes + rest),
                        Err(e) => Err(e),
                    },
                    Err(e) => Err(e),
                }
            },
            LexemeView::Keyword(VarToken::Struct) => {
                proof {
                    lemma_parse_struct_bounds(ls, i + 1);
                }
                match spec_parse_struct(ls, i + 1) {
                    Ok((nodes, j)) => match spec_tree_from(ls, j) {
                        Ok(rest) => Ok(nodes + rest),
                        Err(e) => Err(e),
                    },
                    Err(e) => Err(e),
                }
            },
            LexemeView::Keyword(VarToken::Enum) => {
                proof {
                    lemma_parse_enum_bounds(ls, i + 1);
                }
                match spec_parse_enum(ls, i + 1) {
                    Ok((nodes, j)) => match spec_tree_from(ls, j) {
                        Ok(rest) => Ok(nodes + rest),
                        Err(e) => Err(e),
                    },
                    Err(e) => Err(e),
                }
            },
            LexemeView::Keyword(_) => spec_tree_from(ls, i + 1),
            LexemeView::Punct(_) => spec_tree_from(ls, i + 1),
            LexemeView::Lit(_) => {
                proof {
                    lemma_parse_call_bounds(ls, i);
                }
                match spec_parse_call(ls, i) {
                    Ok((nodes, j)) => match spec_tree_from(ls, j) {
                        Ok(rest) => Ok(nodes + rest),
                        Err(e) => Err(e),
                    },
                    Err(e) => Err(e),
                }
            },
        }
    }
}

/// What the tree builder returns for a whole lexeme sequence: the `Genesis`
/// sentinel followed by the declarations, or the first syntax error.
pub open spec fn spec_tree(ls: Seq<LexemeView>) -> Result<Seq<AstView>, ErrorView> {
    match spec_tree_from(ls, 0) {
        Ok(nodes) => Ok(seq![AstView::Genesis] + nodes),
        Err(e) => Err(e),
    }
}

/// A mapping kept as a sequence of pairs is well formed when its keys are
/// unique.
pub open spec fn unique_keys<V>(m: Seq<(Seq<u8>, V)>) -> bool {
    forall|i: int, j: int|
        #![trigger m[i].0, m[j].0]
        0 <= i < j < m.len() ==> m[i].0 != m[j].0
}

proof fn lemma_upsert_keys<V>(m: Seq<(Seq<u8>, V)>, key: Seq<u8>, value: V, k: int)
    requires
        0 <= k < upsert(m, key, value).len(),
    ensures
        upsert(m, key, value)[k].0 == key || (exists|i: int|
            0 <= i < m.len() && m[i].0 == upsert(m, key, value)[k].0),
    decreases m.len(),
{
    let r = upsert(m, key, value);
    if m.len() == 0 {
    } else if m[0].0 == key {
        if k > 0 {
            assert(r[k] == m.skip(1)[k - 1]);
            assert(m.skip(1)[k - 1] == m[k]);
            assert(0 <= k < m.len() && m[k].0 == r[k].0);
        }
    } else {
        if k == 0 {
            assert(r[0] == m[0]);
            assert(0 <= 0 < m.len() && m[0].0 == r[0].0);
        } else {
            let r1 = upsert(m.skip(1), key, value);
            lemma_upsert_keys(m.skip(1), key, value, k - 1);
            assert(r[k] == r1[k - 1]);
            if r1[k - 1].0 == key {
            } else {
                let i0 = choose|i: int|
                    0 <= i < m.skip(1).len() && m.skip(1)[i].0 == r1[k - 1].0;
                assert(m.skip(1)[i0] == m[i0 + 1]);
                assert(0 <= i0 + 1 < m.len() && m[i0 + 1].0 == r[k].0);
            }
        }
    }
}

/// The mapping insert keeps keys unique.
pub proof fn lemma_upsert_unique_keys<V>(m: Seq<(Seq<u8>, V)>, key: Seq<u8>, value: V)
    requires
        unique_keys(m),
    ensures
        unique_keys(upsert(m, key, value)),
    decreases m.len(),
{
    let r = upsert(m, key, value);
    if m.len() == 0 {
    } else if m[0].0 == key {
        assert forall|i: int, j: int| 0 <= i < j < r.len() implies r[i].0 != r[j].0 by {
            if i == 0 {
                assert(r[0].0 == key);
                assert(r[j] == m.skip(1)[j - 1]);
                assert(m.skip(1)[j - 1] == m[j]);
                assert(m[0].0 != m[j].0);
            } else {
                assert(r[i] == m.skip(1)[i - 1]);
                assert(r[j] == m.skip(1)[j - 1]);
                assert(m.skip(1)[i - 1] == m[i]);
                assert(m.skip(1)[j - 1] == m[j]);
                assert(m[i].0 != m[j].0);
            }
        }
    } else {
        assert forall|i: int, j: int|
            0 <= i < j < m.skip(1).len() implies m.skip(1)[i].0 != m.skip(1)[j].0 by {
            assert(m.skip(1)[i] == m[i + 1]);
            assert(m.skip(1)[j] == m[j + 1]);
            assert(m[i + 1].0 != m[j + 1].0);
        }
        lemma_upsert_unique_keys(m.skip(1), key, value);
        let r1 = upsert(m.skip(1), key, value);
        assert forall|i: int, j: int| 0 <= i < j < r.len() implies r[i].0 != r[j].0 by {
            if i == 0 {
                assert(r[0] == m[0]);
                assert(r[j] == r1[j - 1]);
                lemma_upsert_keys(m.skip(1), key, value, j - 1);
                if r1[j - 1].0 == key {
                    assert(m[0].0 != key);
                } else {
                    let i0 = choose|i2: int|
                        0 <= i2 < m.skip(1).len() && m.skip(1)[i2].0 == r1[j - 1].0;
                    assert(m.skip(1)[i0] == m[i0 + 1]);
                    assert(m[0].0 != m[i0 + 1].0);
                }
            } else {
                assert(r[i] == r1[i - 1]);
                assert(r[j] == r1[j - 1]);
                assert(r1[i - 1].0 != r1[j - 1].0);
            }
        }
    }
}

/// The data model invariant of one declaration node: the field, variant or
/// parameter mapping it carries has unique keys.
pub open spec fn node_wf(n: AstView) -> bool {
    match n {
        AstView::Structure { fields, .. } => unique_keys(fields),
        AstView::Enumeration { fields, .. } => unique_keys(fields),
        AstView::Function { signature, .. } => unique_keys(signature),
        _ => true,
    }
}

proof fn lemma_parse_struct_fields_unique(ls: Seq<LexemeView>, j: nat, acc: Seq<(Seq<u8>, Seq<u8>)>)
    requires
        unique_keys(acc),
    ensures
        unique_keys(spec_parse_struct_fields(ls, j, acc).0),
    decreases ls.len() - j,
{
    match peek_at(ls, j) {
        Some(LexemeView::Lit(raw_field)) => {
            if peek_at(ls, j + 1) == Some(LexemeView::Punct(Token::Colon)) {
                match peek_at(ls, j + 2) {
                    Some(LexemeView::Lit(raw_type)) => {
                        let acc2 = upsert(acc, strip_spaces(raw_field), strip_spaces(raw_type));
                        lemma_upsert_unique_keys(
                            acc,
                            strip_spaces(raw_field),
                            strip_spaces(raw_type),
                        );
                        if peek_at(ls, j + 3) == Some(LexemeView::Punct(Token::Comma)) {
                            lemma_parse_struct_fields_unique(ls, j + 4, acc2);
                        }
                    },
                    _ => {},
                }
            } else {
                lemma_parse_struct_fields_unique(ls, j + 1, acc);
            }
        },
        _ => {},
    }
}

proof fn lemma_parse_enum_variants_unique(
    ls: Seq<LexemeView>,
    j: nat,
    acc: Seq<(Seq<u8>, Option<Seq<u8>>)>,
)
    requires
        unique_keys(acc),
    ensures
        spec_parse_enum_variants(ls, j, acc) matches Ok((fields, p)) ==> unique_keys(fields),
    decreases ls.len() - j,
{
    match peek_at(ls, j) {
        Some(LexemeView::Lit(raw_variant)) => {
            if peek_at(ls, j + 1) == Some(LexemeView::Punct(Token::OpenParen)) {
                match peek_at(ls, j + 2) {
                    Some(LexemeView::Lit(raw_type)) => {
                        let acc2 = upsert(
                            acc,
                            strip_spaces(raw_variant),
                            Some(strip_spaces(raw_type)),
                        );
                        lemma_upsert_unique_keys(
                            acc,
                            strip_spaces(raw_variant),
                            Some(strip_spaces(raw_type)),
                        );
                        if peek_at(ls, j + 3) == Some(LexemeView::Punct(Token::CloseParen)) {
                            if peek_at(ls, j + 4) == Some(LexemeView::Punct(Token::Comma)) {
                                lemma_parse_enum_variants_unique(ls, j + 5, acc2);
                            }
                        }
                    },
                    _ => {},
                }
            } else {
                let acc2 = upsert(acc, strip_spaces(raw_variant), None);
                lemma_upsert_unique_keys(acc, strip_spaces(raw_variant), None);
                if peek_at(ls, j + 1) == Some(LexemeView::Punct(Token::Comma)) {
                    lemma_parse_enum_variants_unique(ls, j + 2, acc2);
                } else {
                    lemma_parse_enum_variants_unique(ls, j + 1, acc2);
                }
            }
        },
        _ => {},
    }
}

proof fn lemma_tree_from_wf(ls: Seq<LexemeView>, i: nat)
    requires
        i <= ls.len(),
    ensures
        spec_tree_from(ls, i) matches Ok(nodes) ==> forall|k: int|
            0 <= k < nodes.len() ==> node_wf(#[trigger] nodes[k]),
    decreases ls.len() - i,
{
    if i >= ls.len() {
    } else {
        match ls[i as int] {
            LexemeView::Keyword(VarToken::Fn) => {
                lemma_parse_fn_bounds(ls, i + 1);
                match spec_parse_fn(ls, i + 1) {
                    Ok((nodes0, j)) => {
                        lemma_tree_from_wf(ls, j);
                    },
                    Err(e) => {},
                }
            },
            LexemeView::Keyword(VarToken::Struct) => {
                lemma_parse_struct_bounds(ls, i + 1);
                match peek_at(ls, i + 1) {
                    Some(LexemeView::Lit(raw_name)) => {
                        lemma_parse_struct_fields_unique(ls, i + 3, Seq::empty());
                    },
                    _ => {},
                }
                match spec_parse_struct(ls, i + 1) {
                    Ok((nodes0, j)) => {
                        lemma_tree_from_wf(ls, j);
                    },
                    Err(e) => {},
                }
            },
            LexemeView::Keyword(VarToken::Enum) => {
                lemma_parse_enum_bounds(ls, i + 1);
                match peek_at(ls, i + 1) {
                    Some(LexemeView::Lit(raw_name)) => {
                        lemma_parse_enum_variants_unique(ls, i + 3, Seq::empty());
                    },
                    _ => {},
                }
                match spec_parse_enum(ls, i + 1) {
                    Ok((nodes0, j)) => {
                        lemma_tree_from_wf(ls, j);
                    },
                    Err(e) => {},
                }
            },
            LexemeView::Keyword(_) => {
                lemma_tree_from_wf(ls, i + 1);
            },
            LexemeView::Punct(_) => {
                lemma_tree_from_wf(ls, i + 1);
            },
            LexemeView::Lit(_) => {
                lemma_parse_call_bounds(ls, i);
                match spec_parse_call(ls, i) {
                    Ok((nodes0, j)) => {
                        lemma_tree_from_wf(ls, j);
                    },
                    Err(e) => {},
                }
            },
        }
    }
}

/// The data model invariant of the built tree: within every structure,
/// enumeration and function node that the tree builder produces, the keys
/// of the stored mapping are unique.
pub proof fn lemma_tree_wf(ls: Seq<LexemeView>)
    ensures
        spec_tree(ls) matches Ok(nodes) ==> forall|k: int|
            0 <= k < nodes.len() ==> node_wf(#[trigger] nodes[k]),
{
    lemma_tree_from_wf(ls, 0);
}

/// The view of an optional type.
pub open spec fn opt_type_view(t: Option<DynaType>) -> Option<Seq<u8>> {
    match t {
        Some(t) => Some(t@),
        None => None,
    }
}

/// Byte-for-byte equality of two byte vectors.
pub(crate) fn bytes_eq(a: &Vec<u8>, b: &Vec<u8>) -> (r: bool)
    ensures
        r == (a@ == b@),
{
    if a.len() != b.len() {
        return false;
    }
    let mut i: usize = 0;
    while i < a.len()
        invariant
            i <= a@.len(),
            a@.len() == b@.len(),
            forall|k: int| 0 <= k < i ==> a@[k] == b@[k],
        decreases a@.len() - i,
    {
        if a[i] != b[i] {
            return false;
        }
        i += 1;
    }
    proof {
        assert(a@ =~= b@);
    }
    true
}

/// Removes every space byte from a literal: the stored form of an
/// identifier or type name.
fn flush_whitespace(literal: &Vec<u8>) -> (r: Vec<u8>)
    ensures
        r@ == strip_spaces(literal@),
{
    let mut r: Vec<u8> = Vec::new();
    let mut i: usize = 0;
    proof {
        assert(literal@.skip(0) =~= literal@);
        assert(Seq::<u8>::empty() + strip_spaces(literal@) =~= strip_spaces(literal@));
    }
    while i < literal.len()
        invariant
            i <= literal@.len(),
            strip_spaces(literal@) == r@ + strip_spaces(literal@.skip(i as int)),
        decreases literal@.len() - i,
    {
        let ghost rem = literal@.skip(i as int);
        let ghost r0 = r@;
        let b = literal[i];
        proof {
            assert(rem[0] == b);
            assert(rem.skip(1) =~= literal@.skip(i as int + 1));
        }
        if b != 32 {
            r.push(b);
            proof {
                assert(strip_spaces(rem) == seq![b] + strip_spaces(literal@.skip(i as int + 1)));
                assert(r@ + strip_spaces(literal@.skip(i as int + 1)) =~= r0 + strip_spaces(rem));
            }
        } else {
            proof {
                assert(strip_spaces(rem) == strip_spaces(literal@.skip(i as int + 1)));
            }
        }
        i += 1;
    }
    proof {
        assert(literal@.skip(literal@.len() as int) =~= Seq::<u8>::empty());
        assert(r@ + Seq::<u8>::empty() =~= r@);
    }
    r
}

proof fn lemma_upsert_found<V>(m: Seq<(Seq<u8>, V)>, key: Seq<u8>, value: V, idx: int)
    requires
        0 <= idx < m.len(),
        m[idx].0 == key,
        forall|k: int| 0 <= k < idx ==> m[k].0 != key,
    ensures
        upsert(m, key, value) == m.update(idx, (key, value)),
    decreases idx,
{
    if idx == 0 {
        assert(upsert(m, key, value) =~= m.update(0, (key, value)));
    } else {
        assert(m[0].0 != key);
        assert(m.skip(1)[idx - 1].0 == key);
        assert forall|k: int| 0 <= k < idx - 1 implies m.skip(1)[k].0 != key by {
            assert(m[k + 1].0 != key);
        }
        lemma_upsert_found(m.skip(1), key, value, idx - 1);
        assert(seq![m[0]] + upsert(m.skip(1), key, value) =~= m.update(idx, (key, value)));
    }
}

proof fn lemma_upsert_absent<V>(m: Seq<(Seq<u8>, V)>, key: Seq<u8>, value: V)
    requires
        forall|k: int| 0 <= k < m.len() ==> m[k].0 != key,
    ensures
        upsert(m, key, value) == m.push((key, value)),
    decreases m.len(),
{
    if m.len() == 0 {
        assert(upsert(m, key, value) =~= m.push((key, value)));
    } else {
        assert forall|k: int| 0 <= k < m.skip(1).len() implies m.skip(1)[k].0 != key by {
            assert(m[k + 1].0 != key);
        }
        lemma_upsert_absent(m.skip(1), key, value);
        assert(seq![m[0]] + upsert(m.skip(1), key, value) =~= m.push((key, value)));
    }
}

/// Performs the mapping insert on a struct field list: replaces the value
/// of an existing key, else appends.
fn upsert_field(fields: &mut Vec<(Vec<u8>, DynaType)>, key: Vec<u8>, value: DynaType)
    ensures
        field_views(final(fields)@) == upsert(field_views(old(fields)@), key@, value@),
{
    let ghost m = field_views(fields@);
    let n = fields.len();
    let mut idx: usize = 0;
    while idx < n
        invariant
            n == fields@.len(),
            idx <= n,
            m == field_views(fields@),
            m == field_views(old(fields)@),
            forall|k: int| 0 <= k < idx ==> m[k].0 != key@,
        decreases n - idx,
    {
        let hit = bytes_eq(&fields[idx].0, &key);
        if hit {
            proof {
                lemma_upsert_found(m, key@, value@, idx as int);
            }
            let ghost kv = key@;
            let ghost vv = value@;
            let ghost f0 = fields@;
            fields[idx] = (key, value);
            proof {
                assert forall|j: int|
                    0 <= j < fields@.len() implies field_views(fields@)[j] == m.update(
                    idx as int,
                    (kv, vv),
                )[j] by {
                    if j != idx {
                        assert(fields@[j] == f0[j]);
                        assert(field_views(f0)[j] == m[j]);
                    }
                }
                assert(field_views(fields@) =~= m.update(idx as int, (kv, vv)));
            }
            return ;
        }
        idx += 1;
    }
    proof {
        lemma_upsert_absent(m, key@, value@);
    }
    let ghost kv = key@;
    let ghost vv = value@;
    let ghost f0 = fields@;
    fields.push((key, value));
    proof {
        assert forall|j: int|
            0 <= j < fields@.len() implies field_views(fields@)[j] == m.push((kv, vv))[j] by {
            if j < f0.len() {
                assert(fields@[j] == f0[j]);
                assert(field_views(f0)[j] == m[j]);
            }
        }
        assert(field_views(fields@) =~= m.push((kv, vv)));
    }
}

/// Performs the mapping insert on an enum variant list.
fn upsert_variant(fields: &mut Vec<(Vec<u8>, Option<DynaType>)>, key: Vec<u8>, value: Option<
    DynaType,
>)
    ensures
        variant_views(final(fields)@) == upsert(
            variant_views(old(fields)@),
            key@,
            opt_type_view(value),
        ),
{
    let ghost m = variant_views(fields@);
    let ghost vv = opt_type_view(value);
    let n = fields.len();
    let mut idx: usize = 0;
    while idx < n
        invariant
            n == fields@.len(),
            idx <= n,
            m == variant_views(fields@),
            m == variant_views(old(fields)@),
            vv == opt_type_view(value),
            forall|k: int| 0 <= k < idx ==> m[k].0 != key@,
        decreases n - idx,
    {
        let hit = bytes_eq(&fields[idx].0, &key);
        if hit {
            proof {
                lemma_upsert_found(m, key@, vv, idx as int);
            }
            let ghost kv = key@;
            let ghost f0 = fields@;
            fields[idx] = (key, value);
            proof {
                assert forall|j: int|
                    0 <= j < fields@.len() implies variant_views(fields@)[j] == m.update(
                    idx as int,
                    (kv, vv),
                )[j] by {
                    if j != idx {
                        assert(fields@[j] == f0[j]);
                        assert(variant_views(f0)[j] == m[j]);
                    }
                }
                assert(variant_views(fields@) =~= m.update(idx as int, (kv, vv)));
            }
            return ;
        }
        idx += 1;
    }
    proof {
        lemma_upsert_absent(m, key@, vv);
    }
    let ghost kv = key@;
    let ghost f0 = fields@;
    fields.push((key, value));
    proof {
        assert forall|j: int|
            0 <= j < fields@.len() implies variant_views(fields@)[j] == m.push((kv, vv))[j] by {
            if j < f0.len() {
                assert(fields@[j] == f0[j]);
                assert(variant_views(f0)[j] == m[j]);
            }
        }
        assert(variant_views(fields@) =~= m.push((kv, vv)));
    }
}

/// Whether the lexeme at `j` is exactly the given punctuation token.
fn peek_is_punct(lexemes: &Vec<Lexeme>, j: usize, t: Token) -> (r: bool)
    ensures
        r == (peek_at(lexeme_views(lexemes@), j as nat) == Some(LexemeView::Punct(t))),
{
    if j < lexemes.len() {
        match &lexemes[j] {
            Lexeme::ByteToken(t2) => *t2 == t,
            _ => false,
        }
    } else {
        false
    }
}

/// The lexeme found at `j`, copied, for error reports.
fn peek_found(lexemes: &Vec<Lexeme>, j: usize) -> (r: Option<Lexeme>)
    ensures
        opt_lexeme_view(r) == peek_at(lexeme_views(lexemes@), j as nat),
{
    if j < lexemes.len() {
        Some(clone_lexeme(&lexemes[j]))
    } else {
        None
    }
}

/// Parses the close paren, open curly and opaque body of a function
/// declaration, given its name and signature; the body runs to the closing
/// curly brace that matches the opening one.
fn parse_fn_rest(
    lexemes: &Vec<Lexeme>,
    fn_name: Vec<u8>,
    signature: Vec<(Vec<u8>, DynaType)>,
    k: usize,
) -> (r: Result<(Option<Ast>, usize), Error>)
    requires
        k <= lexemes@.len(),
    ensures
        ({
            let s = spec_parse_fn_rest(
                lexeme_views(lexemes@),
                fn_name@,
                field_views(signature@),
                k as nat,
            );
            match r {
                Ok((node, j)) => s matches Ok((nodes, sj)) && opt_node_views(node) == nodes && j
                    as nat == sj && j <= lexemes@.len(),
                Err(e) => s matches Err(se) && e@ == se,
            }
        }),
{
    let ghost ls = lexeme_views(lexemes@);
    let total = lexemes.len();
    if !peek_is_punct(lexemes, k, Token::CloseParen) {
        return Err(
            Error::SyntaxError {
                expected: Expected::Punct(Token::CloseParen),
                found: peek_found(lexemes, k),
                position: k,
            },
        );
    }
    proof {
        assert(k < total);
    }
    if !peek_is_punct(lexemes, k + 1, Token::OpenCurly) {
        return Ok((None, k + 1));
    }
    proof {
        assert(k + 1 < total);
    }
    let mut c = k + 2;
    let mut depth: usize = 0;
    let mut body: Vec<Lexeme> = Vec::new();
    proof {
        assert(lexeme_views(body@) =~= ls.subrange(k as int + 2, c as int));
    }
    while c < lexemes.len() && !(peek_is_punct(lexemes, c, Token::CloseCurly) && depth == 0)
        invariant
            ls == lexeme_views(lexemes@),
            total == lexemes@.len(),
            k + 2 <= c <= lexemes@.len(),
            depth <= c - (k + 2),
            lexeme_views(body@) == ls.subrange(k as int + 2, c as int),
            find_close_curly(ls, (k + 2) as nat, 0) == find_close_curly(ls, c as nat, depth as nat),
        decreases lexemes@.len() - c,
    {
        if peek_is_punct(lexemes, c, Token::OpenCurly) {
            depth = depth + 1;
        } else if peek_is_punct(lexemes, c, Token::CloseCurly) {
            depth = depth - 1;
        }
        let ghost b0 = body@;
        let lx = clone_lexeme(&lexemes[c]);
        let ghost lxv = lx@;
        body.push(lx);
        proof {
            assert(ls.len() == lexemes@.len());
            assert(lexeme_views(b0).len() == b0.len());
            assert(lexeme_views(b0) == ls.subrange(k as int + 2, c as int));
            assert(ls.subrange(k as int + 2, c as int).len() == c - (k + 2));
            assert(b0.len() == c - (k + 2));
            assert(lxv == ls[c as int]);
            assert(lexeme_views(body@) =~= lexeme_views(b0).push(lxv));
            assert(ls.subrange(k as int + 2, c as int + 1) =~= ls.subrange(
                k as int + 2,
                c as int,
            ).push(ls[c as int]));
            assert(lexeme_views(body@) == ls.subrange(k as int + 2, c as int + 1));
        }
        c += 1;
    }
    if c >= lexemes.len() {
        proof {
            assert(find_close_curly(ls, c as nat, depth as nat) is None);
        }
        return Err(
            Error::SyntaxError {
                expected: Expected::Punct(Token::CloseCurly),
                found: None,
                position: lexemes.len(),
            },
        );
    }
    proof {
        assert(find_close_curly(ls, c as nat, depth as nat) == Some(c as nat));
    }
    let f = DynaFunction { name: fn_name, body, signature };
    Ok((Some(Ast::Function(f)), c + 1))
}

/// Parses a function declaration, `i` pointing just after the `fn` keyword.
fn parse_fn_decl(lexemes: &Vec<Lexeme>, i: usize) -> (r: Result<(Option<Ast>, usize), Error>)
    requires
        i <= lexemes@.len(),
    ensures
        ({
            let s = spec_parse_fn(lexeme_views(lexemes@), i as nat);
            match r {
                Ok((node, j)) => s matches Ok((nodes, sj)) && opt_node_views(node) == nodes && j
                    as nat == sj && j <= lexemes@.len(),
                Err(e) => s matches Err(se) && e@ == se,
            }
        }),
{
    let ghost ls = lexeme_views(lexemes@);
    if i >= lexemes.len() {
        return Ok((None, i));
    }
    match &lexemes[i] {
        Lexeme::TokenLiteral(raw_name) => {
            let fn_name = flush_whitespace(raw_name);
            if !peek_is_punct(lexemes, i + 1, Token::OpenParen) {
                return Err(
                    Error::SyntaxError {
                        expected: Expected::Punct(Token::OpenParen),
                        found: peek_found(lexemes, i + 1),
                        position: i + 1,
                    },
                );
            }
            if i + 2 < lexemes.len() {
                match &lexemes[i + 2] {
                    Lexeme::TokenLiteral(raw_arg) => {
                        let arg_name = flush_whitespace(raw_arg);
                        if !peek_is_punct(lexemes, i + 3, Token::Colon) {
                            return Err(
                                Error::SyntaxError {
                                    expected: Expected::Punct(Token::Colon),
                                    found: peek_found(lexemes, i + 3),
                                    position: i + 3,
                                },
                            );
                        }
                        if i + 4 < lexemes.len() {
                            match &lexemes[i + 4] {
                                Lexeme::TokenLiteral(raw_type) => {
                                    let arg_type = flush_whitespace(raw_type);
                                    let mut signature: Vec<(Vec<u8>, DynaType)> = Vec::new();
                                    signature.push((arg_name, DynaType { name: arg_type }));
                                    proof {
                                        assert(field_views(signature@) =~= seq![
                                            (strip_spaces(raw_arg@), strip_spaces(raw_type@)),
                                        ]);
                                    }
                                    parse_fn_rest(lexemes, fn_name, signature, i + 5)
                                },
                                _ => Err(
                                    Error::SyntaxError {
                                        expected: Expected::Literal,
                                        found: peek_found(lexemes, i + 4),
                                        position: i + 4,
                                    },
                                ),
                            }
                        } else {
                            Err(
                                Error::SyntaxError {
                                    expected: Expected::Literal,
                                    found: peek_found(lexemes, i + 4),
                                    position: i + 4,
                                },
                            )
                        }
                    },
                    _ => {
                        let signature: Vec<(Vec<u8>, DynaType)> = Vec::new();
                        proof {
                            assert(field_views(signature@) =~= Seq::<(Seq<u8>, Seq<u8>)>::empty());
                        }
                        parse_fn_rest(lexemes, fn_name, signature, i + 2)
                    },
                }
            } else {
                let signature: Vec<(Vec<u8>, DynaType)> = Vec::new();
                proof {
                    assert(field_views(signature@) =~= Seq::<(Seq<u8>, Seq<u8>)>::empty());
                }
                parse_fn_rest(lexemes, fn_name, signature, i + 2)
            }
        },
        _ => Ok((None, i)),
    }
}

/// The field loop of a structure declaration, accumulating into `fields`.
fn parse_struct_fields(lexemes: &Vec<Lexeme>, j: usize, fields: &mut Vec<(Vec<u8>, DynaType)>) -> (p:
    usize)
    requires
        j <= lexemes@.len(),
    ensures
        ({
            let s = spec_parse_struct_fields(
                lexeme_views(lexemes@),
                j as nat,
                field_views(old(fields)@),
            );
            field_views(final(fields)@) == s.0 && p as nat == s.1 && p <= lexemes@.len()
        }),
    decreases lexemes@.len() - j,
{
    let ghost ls = lexeme_views(lexemes@);
    if j >= lexemes.len() {
        return j;
    }
    match &lexemes[j] {
        Lexeme::TokenLiteral(raw_field) => {
            let field_name = flush_whitespace(raw_field);
            if peek_is_punct(lexemes, j + 1, Token::Colon) {
                if j + 2 < lexemes.len() {
                    match &lexemes[j + 2] {
                        Lexeme::TokenLiteral(raw_type) => {
                            let ty = flush_whitespace(raw_type);
                            upsert_field(fields, field_name, DynaType { name: ty });
                            if peek_is_punct(lexemes, j + 3, Token::Comma) {
                                parse_struct_fields(lexemes, j + 4, fields)
                            } else {
                                j + 3
                            }
                        },
                        _ => j + 2,
                    }
                } else {
                    j + 2
                }
            } else {
                parse_struct_fields(lexemes, j + 1, fields)
            }
        },
        _ => j,
    }
}

/// Parses a structure declaration, `i` pointing just after the `struct`
/// keyword.
fn parse_struct_decl(lexemes: &Vec<Lexeme>, i: usize) -> (r: Result<(Option<Ast>, usize), Error>)
    requires
        i <= lexemes@.len(),
    ensures
        ({
            let s = spec_parse_struct(lexeme_views(lexemes@), i as nat);
            match r {
                Ok((node, j)) => s matches Ok((nodes, sj)) && opt_node_views(node) == nodes && j
                    as nat == sj && j <= lexemes@.len(),
                Err(e) => s matches Err(se) && e@ == se,
            }
        }),
{
    let ghost ls = lexeme_views(lexemes@);
    if i >= lexemes.len() {
        return Ok((None, i));
    }
    match &lexemes[i] {
        Lexeme::TokenLiteral(raw_name) => {
            if !peek_is_punct(lexemes, i + 1, Token::OpenCurly) {
                return Ok((None, i + 1));
            }
            let name = flush_whitespace(raw_name);
            let mut fields: Vec<(Vec<u8>, DynaType)> = Vec::new();
            proof {
                assert(field_views(fields@) =~= Seq::<(Seq<u8>, Seq<u8>)>::empty());
            }
            let p = parse_struct_fields(lexemes, i + 2, &mut fields);
            if peek_is_punct(lexemes, p, Token::CloseCurly) {
                let node = Ast::Structure(DynaStruct { name, fields });
                Ok((Some(node), p + 1))
            } else {
                Err(
                    Error::SyntaxError {
                        expected: Expected::Punct(Token::CloseCurly),
                        found: peek_found(lexemes, p),
                        position: p,
                    },
                )
            }
        },
        _ => Ok((None, i)),
    }
}

/// The variant loop of an enumeration declaration, accumulating into
/// `fields`.
fn parse_enum_variants(
    lexemes: &Vec<Lexeme>,
    j: usize,
    fields: &mut Vec<(Vec<u8>, Option<DynaType>)>,
) -> (r: Result<usize, Error>)
    requires
        j <= lexemes@.len(),
    ensures
        ({
            let s = spec_parse_enum_variants(
                lexeme_views(lexemes@),
                j as nat,
                variant_views(old(fields)@),
            );
            match r {
                Ok(p) => s matches Ok((sf, sp)) && variant_views(final(fields)@) == sf && p as nat
                    == sp && p <= lexemes@.len(),
                Err(e) => s matches Err(se) && e@ == se,
            }
        }),
    decreases lexemes@.len() - j,
{
    let ghost ls = lexeme_views(lexemes@);
    if j >= lexemes.len() {
        return Ok(j);
    }
    match &lexemes[j] {
        Lexeme::TokenLiteral(raw_variant) => {
            let vname = flush_whitespace(raw_variant);
            if peek_is_punct(lexemes, j + 1, Token::OpenParen) {
                if j + 2 < lexemes.len() {
                    match &lexemes[j + 2] {
                        Lexeme::TokenLiteral(raw_type) => {
                            let ty = flush_whitespace(raw_type);
                            upsert_variant(fields, vname, Some(DynaType { name: ty }));
                            if peek_is_punct(lexemes, j + 3, Token::CloseParen) {
                                if peek_is_punct(lexemes, j + 4, Token::Comma) {
                                    parse_enum_variants(lexemes, j + 5, fields)
                                } else {
                                    Ok(j + 4)
                                }
                            } else {
                                Err(
                                    Error::SyntaxError {
                                        expected: Expected::Punct(Token::CloseParen),
                                        found: peek_found(lexemes, j + 3),
                                        position: j + 3,
                                    },
                                )
                            }
                        },
                        _ => Ok(j + 2),
                    }
                } else {
                    Ok(j + 2)
                }
            } else {
                upsert_variant(fields, vname, None);
                if peek_is_punct(lexemes, j + 1, Token::Comma) {
                    parse_enum_variants(lexemes, j + 2, fields)
                } else {
                    parse_enum_variants(lexemes, j + 1, fields)
                }
            }
        },
        _ => Ok(j),
    }
}

/// Parses an enumeration declaration, `i` pointing just after the `enum`
/// keyword.
fn parse_enum_decl(lexemes: &Vec<Lexeme>, i: usize) -> (r: Result<(Option<Ast>, usize), Error>)
    requires
        i <= lexemes@.len(),
    ensures
        ({
            let s = spec_parse_enum(lexeme_views(lexemes@), i as nat);
            match r {
                Ok((node, j)) => s matches Ok((nodes, sj)) && opt_node_views(node) == nodes && j
                    as nat == sj && j <= lexemes@.len(),
                Err(e) => s matches Err(se) && e@ == se,
            }
        }),
{
    let ghost ls = lexeme_views(lexemes@);
    if i >= lexemes.len() {
        return Ok((None, i));
    }
    match &lexemes[i] {
        Lexeme::TokenLiteral(raw_name) => {
            if !peek_is_punct(lexemes, i + 1, Token::OpenCurly) {
                return Ok((None, i + 1));
            }
            let name = flush_whitespace(raw_name);
            let mut fields: Vec<(Vec<u8>, Option<DynaType>)> = Vec::new();
            proof {
                assert(variant_views(fields@) =~= Seq::<(Seq<u8>, Option<Seq<u8>>)>::empty());
            }
            match parse_enum_variants(lexemes, i + 2, &mut fields) {
                Err(e) => Err(e),
                Ok(p) => {
                    if peek_is_punct(lexemes, p, Token::CloseCurly) || peek_is_punct(
                        lexemes,
                        p,
                        Token::Comma,
                    ) {
                        Ok((Some(Ast::Enumeration(DynaEnum { name, fields })), p + 1))
                    } else {
                        Err(
                            Error::SyntaxError {
                                expected: Expected::CommaOrCloseCurly,
                                found: peek_found(lexemes, p),
                                position: p,
                            },
                        )
                    }
                },
            }
        },
        _ => Ok((None, i)),
    }
}

/// Parses a call site, `i` pointing at the bare literal.
fn parse_call(lexemes: &Vec<Lexeme>, i: usize) -> (r: Result<(Option<Ast>, usize), Error>)
    requires
        i < lexemes@.len(),
    ensures
        ({
            let s = spec_parse_call(lexeme_views(lexemes@), i as nat);
            match r {
                Ok((node, j)) => s matches Ok((nodes, sj)) && opt_node_views(node) == nodes && j
                    as nat == sj && j <= lexemes@.len(),
                Err(e) => s matches Err(se) && e@ == se,
            }
        }),
{
    let ghost ls = lexeme_views(lexemes@);
    let total = lexemes.len();
    match &lexemes[i] {
        Lexeme::TokenLiteral(raw_name) => {
            if !peek_is_punct(lexemes, i + 1, Token::OpenParen) {
                return Ok((None, i + 1));
            }
            let mut types: Vec<DynaType> = Vec::new();
            proof {
                assert(type_views(types@) =~= Seq::<Seq<u8>>::empty());
            }
            let mut k = i + 2;
            if i + 2 < lexemes.len() {
                match &lexemes[i + 2] {
                    Lexeme::TokenLiteral(raw_type) => {
                        types.push(DynaType { name: flush_whitespace(raw_type) });
                        proof {
                            assert(type_views(types@) =~= seq![strip_spaces(raw_type@)]);
                        }
                        k = i + 3;
                    },
                    _ => {},
                }
            }
            if peek_is_punct(lexemes, k, Token::CloseParen) {
                let node = Ast::FunctionCall(
                    DynaCall { fn_name: flush_whitespace(raw_name), signature: types },
                );
                Ok((Some(node), k + 1))
            } else {
                Err(
                    Error::SyntaxError {
                        expected: Expected::Punct(Token::CloseParen),
                        found: peek_found(lexemes, k),
                        position: k,
                    },
                )
            }
        },
        _ => Ok((None, i + 1)),
    }
}

/// Appends an optional node to the output sequence.
fn push_opt(out: &mut Vec<Ast>, node: Option<Ast>)
    ensures
        ast_views(final(out)@) == ast_views(old(out)@) + opt_node_views(node),
{
    let ghost nv = opt_node_views(node);
    match node {
        Some(a) => {
            out.push(a);
            proof {
                assert(ast_views(out@) =~= ast_views(old(out)@) + nv);
            }
        },
        None => {
            proof {
                assert(ast_views(out@) =~= ast_views(old(out)@) + nv);
            }
        },
    }
}

/// The top-level scan: builds every declaration from position `i` on into
/// `out`, or stops at the first syntax error.
#[verifier::rlimit(60)]
fn tree_from(lexemes: &Vec<Lexeme>, i: usize, out: &mut Vec<Ast>) -> (r: Result<(), Error>)
    requires
        i <= lexemes@.len(),
    ensures
        ({
            let s = spec_tree_from(lexeme_views(lexemes@), i as nat);
            match r {
                Ok(u) => s matches Ok(nodes) && ast_views(final(out)@) == ast_views(old(out)@)
                    + nodes,
                Err(e) => s matches Err(se) && e@ == se,
            }
        }),
    decreases lexemes@.len() - i,
{
    let ghost ls = lexeme_views(lexemes@);
    let ghost base = out@;
    if i >= lexemes.len() {
        proof {
            assert(ast_views(out@) =~= ast_views(out@) + Seq::<AstView>::empty());
        }
        return Ok(());
    }
    match &lexemes[i] {
        Lexeme::VariableByteToken(vt) => {
            match vt {
                VarToken::Fn => {
                    proof {
                        lemma_parse_fn_bounds(ls, (i + 1) as nat);
                    }
                    match parse_fn_decl(lexemes, i + 1) {
                        Ok((node, j)) => {
                            let ghost nv = opt_node_views(node);
                            push_opt(out, node);
                            let res = tree_from(lexemes, j, out);
                            proof {
                                if res is Ok {
                                    match spec_tree_from(ls, j as nat) {
                                        Ok(rest) => {
                                            assert((ast_views(base) + nv) + rest =~= ast_views(
                                                base,
                                            ) + (nv + rest));
                                        },
                                        Err(e) => {
                                            assert(false);
                                        },
                                    }
                                }
                            }
                            res
                        },
                        Err(e) => Err(e),
                    }
                },
                VarToken::Struct => {
                    proof {
                        lemma_parse_struct_bounds(ls, (i + 1) as nat);
                    }
                    match parse_struct_decl(lexemes, i + 1) {
                        Ok((node, j)) => {
                            let ghost nv = opt_node_views(node);
                            push_opt(out, node);
                            let res = tree_from(lexemes, j, out);
                            proof {
                                if res is Ok {
                                    match spec_tree_from(ls, j as nat) {
                                        Ok(rest) => {
                                            assert((ast_views(base) + nv) + rest =~= ast_views(
                                                base,
                                            ) + (nv + rest));
                                        },
                                        Err(e) => {
                                            assert(false);
                                        },
                                    }
                                }
                            }
                            res
                        },
                        Err(e) => Err(e),
                    }
                },
                VarToken::Enum => {
                    proof {
                        lemma_parse_enum_bounds(ls, (i + 1) as nat);
                    }
                    match parse_enum_decl(lexemes, i + 1) {
                        Ok((node, j)) => {
                            let ghost nv = opt_node_views(node);
                            push_opt(out, node);
                            let res = tree_from(lexemes, j, out);
                            proof {
                                if res is Ok {
                                    match spec_tree_from(ls, j as nat) {
                                        Ok(rest) => {
                                            assert((ast_views(base) + nv) + rest =~= ast_views(
                                                base,
                                            ) + (nv + rest));
                                        },
                                        Err(e) => {
                                            assert(false);
                                        },
                                    }
                                }
                            }
                            res
                        },
                        Err(e) => Err(e),
                    }
                },
                _ => tree_from(lexemes, i + 1, out),
            }
        },
        Lexeme::ByteToken(_) => tree_from(lexemes, i + 1, out),
        Lexeme::TokenLiteral(_) => {
            proof {
                lemma_parse_call_bounds(ls, i as nat);
            }
            match parse_call(lexemes, i) {
                Ok((node, j)) => {
                    let ghost nv = opt_node_views(node);
                    push_opt(out, node);
                    let res = tree_from(lexemes, j, out);
                    proof {
                        if res is Ok {
                            match spec_tree_from(ls, j as nat) {
                                Ok(rest) => {
                                    assert((ast_views(base) + nv) + rest =~= ast_views(base) + (nv
                                        + rest));
                                },
                                Err(e) => {
                                    assert(false);
                                },
                            }
                        }
                    }
                    res
                },
                Err(e) => Err(e),
            }
        },
    }
}

/// Builds the ordered declaration sequence for a lexeme stream: the
/// `Genesis` sentinel, then one node per recognized construct, exactly as
/// `spec_tree` describes.  Malformed input yields the first `SyntaxError`.
pub fn tree(lexemes: Vec<Lexeme>) -> (r: Result<Vec<Ast>, Error>)
    ensures
        ({
            let s = spec_tree(lexeme_views(lexemes@));
            match r {
                Ok(t) => s matches Ok(st) && ast_views(t@) == st,
                Err(e) => s matches Err(se) && e@ == se,
            }
        }),
{
    let mut out: Vec<Ast> = Vec::new();
    out.push(Ast::Genesis);
    proof {
        assert(ast_views(out@) =~= seq![AstView::Genesis]);
    }
    match tree_from(&lexemes, 0, &mut out) {
        Ok(u) => {
            proof {
                match spec_tree_from(lexeme_views(lexemes@), 0) {
                    Ok(nodes) => {
                        assert(ast_views(out@) =~= seq![AstView::Genesis] + nodes);
                    },
                    Err(e) => {
                        assert(false);
                    },
                }
            }
            Ok(out)
        },
        Err(e) => Err(e),
    }
}

} // verus!
