//! The lexer: a total, single-pass tokenizer over raw source bytes.
//!
//! Every byte sequence lexes without error.  Punctuation bytes and keyword
//! spellings become tokens; every other byte run is preserved verbatim as an
//! opaque literal span.  Punctuation tokens elide the run of space bytes and
//! the run of newline bytes that immediately follow them; the keywords `fn`,
//! `let` and `struct` elide the run of space bytes that follows them.

use vstd::prelude::*;

verus! {

/// A punctuation token, produced by an exact single-byte match.
#[derive(Debug, Clone, Copy, PartialEq, Eq, Structural)]
pub enum Token {
    Eq,
    OpenParen,
    CloseParen,
    OpenCurly,
    CloseCurly,
    OpenSquare,
    CloseSquare,
    Newline,
    Comma,
    Ampersand,
    Semicolon,
    Colon,
}

/// A keyword token, produced by a fixed-length lookahead match on its
/// literal spelling.
#[derive(Debug, Clone, Copy, PartialEq, Eq, Structural)]
pub enum VarToken {
    Fn,
    Let,
    If,
    Else,
    Struct,
    Enum,
}

/// One lexeme: a punctuation token, a keyword token, or an opaque run of
/// raw bytes that matched neither.
#[derive(Debug, PartialEq, Eq)]
pub enum Lexeme {
    ByteToken(Token),
    VariableByteToken(VarToken),
    TokenLiteral(Vec<u8>),
}

/// The mathematical image of a `Lexeme`: the literal run is a `Seq<u8>`.
pub enum LexemeView {
    Punct(Token),
    Keyword(VarToken),
    Lit(Seq<u8>),
}

impl View for Lexeme {
    type V = LexemeView;

    open spec fn view(&self) -> LexemeView {
        match self {
            Lexeme::ByteToken(t) => LexemeView::Punct(*t),
            Lexeme::VariableByteToken(k) => LexemeView::Keyword(*k),
            Lexeme::TokenLiteral(bytes) => LexemeView::Lit(bytes@),
        }
    }
}

/// The views of a sequence of lexemes, element by element.
pub open spec fn lexeme_views(s: Seq<Lexeme>) -> Seq<LexemeView> {
    s.map_values(|l: Lexeme| l@)
}

/// The view of an optional lexeme.
pub open spec fn opt_lexeme_view(l: Option<Lexeme>) -> Option<LexemeView> {
    match l {
        Some(l) => Some(l@),
        None => None,
    }
}

/// Copies one lexeme; the copy has the same view.
pub fn clone_lexeme(l: &Lexeme) -> (r: Lexeme)
    ensures
        r@ == l@,
{
    match l {
        Lexeme::ByteToken(t) => Lexeme::ByteToken(*t),
        Lexeme::VariableByteToken(k) => Lexeme::VariableByteToken(*k),
        Lexeme::TokenLiteral(bytes) => Lexeme::TokenLiteral(copy_bytes(bytes)),
    }
}

/// The punctuation token that a byte lexes to, if any.
pub open spec fn token_of_byte(b: u8) -> Option<Token> {
    if b == 61 {
        Some(Token::Eq)
    } else if b == 40 {
        Some(Token::OpenParen)
    } else if b == 41 {
        Some(Token::CloseParen)
    } else if b == 125 {
        Some(Token::CloseCurly)
    } else if b == 123 {
        Some(Token::OpenCurly)
    } else if b == 59 {
        Some(Token::Semicolon)
    } else if b == 44 {
        Some(Token::Comma)
    } else if b == 93 {
        Some(Token::CloseSquare)
    } else if b == 91 {
        Some(Token::OpenSquare)
    } else if b == 10 {
        Some(Token::Newline)
    } else if b == 38 {
        Some(Token::Ampersand)
    } else if b == 58 {
        Some(Token::Colon)
    } else {
        None
    }
}

impl Token {
    /// Maps a byte to its punctuation token; bytes outside the fixed set map
    /// to `None`.
    fn from_char(racter: u8) -> (r: Option<Token>)
        ensures
            r == token_of_byte(racter),
    {
        if racter == 61 {
            Some(Token::Eq)
        } else if racter == 40 {
            Some(Token::OpenParen)
        } else if racter == 41 {
            Some(Token::CloseParen)
        } else if racter == 125 {
            Some(Token::CloseCurly)
        } else if racter == 123 {
            Some(Token::OpenCurly)
        } else if racter == 59 {
            Some(Token::Semicolon)
        } else if racter == 44 {
            Some(Token::Comma)
        } else if racter == 93 {
            Some(Token::CloseSquare)
        } else if racter == 91 {
            Some(Token::OpenSquare)
        } else if racter == 10 {
            Some(Token::Newline)
        } else if racter == 38 {
            Some(Token::Ampersand)
        } else if racter == 58 {
            Some(Token::Colon)
        } else {
            None
        }
    }
}

/// The single byte underlying a punctuation token.
pub open spec fn byte_of_token(t: Token) -> u8 {
    match t {
        Token::Eq => 61,
        Token::OpenParen => 40,
        Token::CloseParen => 41,
        Token::OpenCurly => 123,
        Token::CloseCurly => 125,
        Token::OpenSquare => 91,
        Token::CloseSquare => 93,
        Token::Newline => 10,
        Token::Comma => 44,
        Token::Ampersand => 38,
        Token::Semicolon => 59,
        Token::Colon => 58,
    }
}

/// The spelling of a keyword, as the bytes the lexer matched.
pub open spec fn keyword_spelling(k: VarToken) -> Seq<u8> {
    match k {
        VarToken::Fn => seq![102u8, 110u8],
        VarToken::Let => seq![108u8, 101u8, 116u8],
        VarToken::If => seq![105u8, 102u8],
        VarToken::Else => seq![101u8, 108u8, 115u8, 101u8],
        VarToken::Struct => seq![115u8, 116u8, 114u8, 117u8, 99u8, 116u8],
        VarToken::Enum => seq![101u8, 110u8, 117u8, 109u8],
    }
}

/// The bytes underlying one lexeme.
pub open spec fn lexeme_bytes(l: LexemeView) -> Seq<u8> {
    match l {
        LexemeView::Punct(t) => seq![byte_of_token(t)],
        LexemeView::Keyword(k) => keyword_spelling(k),
        LexemeView::Lit(bytes) => bytes,
    }
}

/// The pending literal buffer, flushed: one literal lexeme if it is
/// non-empty, nothing otherwise.
pub open spec fn spec_flush(pending: Seq<u8>) -> Seq<LexemeView> {
    if pending.len() > 0 {
        seq![LexemeView::Lit(pending)]
    } else {
        Seq::empty()
    }
}

/// The suffix that remains after the leading run of space bytes.
pub open spec fn skip_spaces(s: Seq<u8>) -> Seq<u8>
    decreases s.len(),
{
    if s.len() > 0 && s[0] == 32 {
        skip_spaces(s.skip(1))
    } else {
        s
    }
}

/// The suffix that remains after the leading run of newline bytes.
pub open spec fn skip_newlines(s: Seq<u8>) -> Seq<u8>
    decreases s.len(),
{
    if s.len() > 0 && s[0] == 10 {
        skip_newlines(s.skip(1))
    } else {
        s
    }
}

pub proof fn lemma_skip_spaces_len(s: Seq<u8>)
    ensures
        skip_spaces(s).len() <= s.len(),
    decreases s.len(),
{
    if s.len() > 0 && s[0] == 32 {
        lemma_skip_spaces_len(s.skip(1));
    }
}

pub proof fn lemma_skip_newlines_len(s: Seq<u8>)
    ensures
        skip_newlines(s).len() <= s.len(),
    decreases s.len(),
{
    if s.len() > 0 && s[0] == 10 {
        lemma_skip_newlines_len(s.skip(1));
    }
}

/// The lexer as a mathematical function.
///
/// `input` is the unread suffix of the source and `pending` the
/// pending-literal buffer; the result is every lexeme still to be emitted.
/// A punctuation byte flushes the buffer, becomes a token, and elides the
/// following run of spaces and then the following run of newlines.  A
/// keyword spelling flushes the buffer and becomes a token; after `fn`,
/// `let` and `struct` the following run of spaces is elided.  Every other
/// byte, including a keyword head whose lookahead fails, joins the buffer.
/// At the end of the input a non-empty buffer is flushed as a final
/// literal lexeme.
pub open spec fn spec_lex(input: Seq<u8>, pending: Seq<u8>) -> Seq<LexemeView>
    decreases input.len(),
{
    if input.len() == 0 {
        spec_flush(pending)
    } else {
        let b = input[0];
        match token_of_byte(b) {
            Some(t) => {
                proof {
                    lemma_skip_spaces_len(input.skip(1));
                    lemma_skip_newlines_len(skip_spaces(input.skip(1)));
                }
                spec_flush(pending) + seq![LexemeView::Punct(t)] + spec_lex(
                    skip_newlines(skip_spaces(input.skip(1))),
                    Seq::empty(),
                )
            },
            None => {
                if b == 102 && input.len() >= 2 && input[1] == 110 {
                    proof {
                        lemma_skip_spaces_len(input.skip(2));
                    }
                    spec_flush(pending) + seq![LexemeView::Keyword(VarToken::Fn)] + spec_lex(
                        skip_spaces(input.skip(2)),
                        Seq::empty(),
                    )
                } else if b == 108 && input.len() >= 3 && input[1] == 101 && input[2] == 116 {
                    proof {
                        lemma_skip_spaces_len(input.skip(3));
                    }
                    spec_flush(pending) + seq![LexemeView::Keyword(VarToken::Let)] + spec_lex(
                        skip_spaces(input.skip(3)),
                        Seq::empty(),
                    )
                } else if b == 105 && input.len() >= 2 && input[1] == 102 {
                    spec_flush(pending) + seq![LexemeView::Keyword(VarToken::If)] + spec_lex(
                        input.skip(2),
                        Seq::empty(),
                    )
                } else if b == 101 && input.len() >= 4 && input[1] == 108 && input[2] == 115
                    && input[3] == 101 {
                    spec_flush(pending) + seq![LexemeView::Keyword(VarToken::Else)] + spec_lex(
                        input.skip(4),
                        Seq::empty(),
                    )
                } else if b == 101 && input.len() >= 4 && input[1] == 110 && input[2] == 117
                    && input[3] == 109 {
                    spec_flush(pending) + seq![LexemeView::Keyword(VarToken::Enum)] + spec_lex(
                        input.skip(4),
                        Seq::empty(),
                    )
                } else if b == 115 && input.len() >= 6 && input[1] == 116 && input[2] == 114
                    && input[3] == 117 && input[4] == 99 && input[5] == 116 {
                    proof {
                        lemma_skip_spaces_len(input.skip(6));
                    }
                    spec_flush(pending) + seq![LexemeView::Keyword(VarToken::Struct)] + spec_lex(
                        skip_spaces(input.skip(6)),
                        Seq::empty(),
                    )
                } else {
                    spec_lex(input.skip(1), pending.push(b))
                }
            },
        }
    }
}

/// The leading run of space bytes of `s`.
pub open spec fn space_run(s: Seq<u8>) -> Seq<u8>
    decreases s.len(),
{
    if s.len() > 0 && s[0] == 32 {
        seq![32u8] + space_run(s.skip(1))
    } else {
        Seq::empty()
    }
}

/// The leading run of newline bytes of `s`.
pub open spec fn newline_run(s: Seq<u8>) -> Seq<u8>
    decreases s.len(),
{
    if s.len() > 0 && s[0] == 10 {
        seq![10u8] + newline_run(s.skip(1))
    } else {
        Seq::empty()
    }
}

/// What a punctuation token elides from the suffix `s` that follows it: the
/// leading space run, then the newline run after that.
pub open spec fn punct_gap(s: Seq<u8>) -> Seq<u8> {
    space_run(s) + newline_run(skip_spaces(s))
}

/// One empty elided run per lexeme of `spec_flush`.
pub open spec fn gap_flush(pending: Seq<u8>) -> Seq<Seq<u8>> {
    if pending.len() > 0 {
        seq![Seq::<u8>::empty()]
    } else {
        Seq::empty()
    }
}

/// The elided byte runs, one per lexeme of `spec_lex(input, pending)`, in
/// the same order: the run a punctuation or `fn`/`let`/`struct` keyword
/// consumed right after itself, empty for every other lexeme.
pub open spec fn spec_lex_gaps(input: Seq<u8>, pending: Seq<u8>) -> Seq<Seq<u8>>
    decreases input.len(),
{
    if input.len() == 0 {
        gap_flush(pending)
    } else {
        let b = input[0];
        match token_of_byte(b) {
            Some(t) => {
                proof {
                    lemma_skip_spaces_len(input.skip(1));
                    lemma_skip_newlines_len(skip_spaces(input.skip(1)));
                }
                gap_flush(pending) + seq![punct_gap(input.skip(1))] + spec_lex_gaps(
                    skip_newlines(skip_spaces(input.skip(1))),
                    Seq::empty(),
                )
            },
            None => {
                if b == 102 && input.len() >= 2 && input[1] == 110 {
                    proof {
                        lemma_skip_spaces_len(input.skip(2));
                    }
                    gap_flush(pending) + seq![space_run(input.skip(2))] + spec_lex_gaps(
                        skip_spaces(input.skip(2)),
                        Seq::empty(),
                    )
                } else if b == 108 && input.len() >= 3 && input[1] == 101 && input[2] == 116 {
                    proof {
                        lemma_skip_spaces_len(input.skip(3));
                    }
                    gap_flush(pending) + seq![space_run(input.skip(3))] + spec_lex_gaps(
                        skip_spaces(input.skip(3)),
                        Seq::empty(),
                    )
                } else if b == 105 && input.len() >= 2 && input[1] == 102 {
                    gap_flush(pending) + seq![Seq::<u8>::empty()] + spec_lex_gaps(
                        input.skip(2),
                        Seq::empty(),
                    )
                } else if b == 101 && input.len() >= 4 && input[1] == 108 && input[2] == 115
                    && input[3] == 101 {
                    gap_flush(pending) + seq![Seq::<u8>::empty()] + spec_lex_gaps(
                        input.skip(4),
                        Seq::empty(),
                    )
                } else if b == 101 && input.len() >= 4 && input[1] == 110 && input[2] == 117
                    && input[3] == 109 {
                    gap_flush(pending) + seq![Seq::<u8>::empty()] + spec_lex_gaps(
                        input.skip(4),
                        Seq::empty(),
                    )
                } else if b == 115 && input.len() >= 6 && input[1] == 116 && input[2] == 114
                    && input[3] == 117 && input[4] == 99 && input[5] == 116 {
                    proof {
                        lemma_skip_spaces_len(input.skip(6));
                    }
                    gap_flush(pending) + seq![space_run(input.skip(6))] + spec_lex_gaps(
                        skip_spaces(input.skip(6)),
                        Seq::empty(),
                    )
                } else {
                    spec_lex_gaps(input.skip(1), pending.push(b))
                }
            },
        }
    }
}

/// A byte sequence of spaces and newlines only.
pub open spec fn all_blank(s: Seq<u8>) -> bool {
    forall|k: int| 0 <= k < s.len() ==> (s[k] == 32 || s[k] == 10)
}

/// The lexemes' underlying bytes and the elided runs, interleaved back in
/// order: the bytes of each lexeme followed by the run elided after it.
pub open spec fn reassemble(ls: Seq<LexemeView>, gaps: Seq<Seq<u8>>) -> Seq<u8>
    recommends
        ls.len() == gaps.len(),
    decreases ls.len(),
{
    if ls.len() == 0 {
        Seq::empty()
    } else {
        lexeme_bytes(ls[0]) + gaps[0] + reassemble(ls.skip(1), gaps.skip(1))
    }
}

proof fn lemma_space_run(s: Seq<u8>)
    ensures
        space_run(s) + skip_spaces(s) == s,
        all_blank(space_run(s)),
    decreases s.len(),
{
    if s.len() > 0 && s[0] == 32 {
        lemma_space_run(s.skip(1));
        assert(skip_spaces(s) == skip_spaces(s.skip(1)));
        assert(space_run(s) == seq![32u8] + space_run(s.skip(1)));
        assert((seq![32u8] + space_run(s.skip(1))) + skip_spaces(s.skip(1)) =~= seq![32u8] + (
        space_run(s.skip(1)) + skip_spaces(s.skip(1))));
        assert(seq![32u8] + s.skip(1) =~= s);
        assert(space_run(s) + skip_spaces(s) == s);
        assert forall|k: int|
            0 <= k < space_run(s).len() implies (space_run(s)[k] == 32 || space_run(s)[k]
            == 10) by {
            if k > 0 {
                assert(space_run(s)[k] == space_run(s.skip(1))[k - 1]);
            }
        }
    } else {
        assert(space_run(s) + skip_spaces(s) =~= s);
    }
}

proof fn lemma_newline_run(s: Seq<u8>)
    ensures
        newline_run(s) + skip_newlines(s) == s,
        all_blank(newline_run(s)),
    decreases s.len(),
{
    if s.len() > 0 && s[0] == 10 {
        lemma_newline_run(s.skip(1));
        assert(skip_newlines(s) == skip_newlines(s.skip(1)));
        assert(newline_run(s) == seq![10u8] + newline_run(s.skip(1)));
        assert((seq![10u8] + newline_run(s.skip(1))) + skip_newlines(s.skip(1)) =~= seq![10u8] + (
        newline_run(s.skip(1)) + skip_newlines(s.skip(1))));
        assert(seq![10u8] + s.skip(1) =~= s);
        assert(newline_run(s) + skip_newlines(s) == s);
        assert forall|k: int|
            0 <= k < newline_run(s).len() implies (newline_run(s)[k] == 32 || newline_run(
            s,
        )[k] == 10) by {
            if k > 0 {
                assert(newline_run(s)[k] == newline_run(s.skip(1))[k - 1]);
            }
        }
    } else {
        assert(newline_run(s) + skip_newlines(s) =~= s);
    }
}

proof fn lemma_blank_concat(a: Seq<u8>, b: Seq<u8>)
    requires
        all_blank(a),
        all_blank(b),
    ensures
        all_blank(a + b),
{
    assert forall|k: int| 0 <= k < (a + b).len() implies ((a + b)[k] == 32 || (a + b)[k]
        == 10) by {
        if k < a.len() {
            assert((a + b)[k] == a[k]);
        } else {
            assert((a + b)[k] == b[k - a.len()]);
        }
    }
}

proof fn lemma_reassemble_append(
    a: Seq<LexemeView>,
    ga: Seq<Seq<u8>>,
    b: Seq<LexemeView>,
    gb: Seq<Seq<u8>>,
)
    requires
        a.len() == ga.len(),
    ensures
        reassemble(a + b, ga + gb) == reassemble(a, ga) + reassemble(b, gb),
    decreases a.len(),
{
    if a.len() == 0 {
        assert(a + b =~= b);
        assert(ga + gb =~= gb);
        assert(reassemble(a, ga) + reassemble(b, gb) =~= reassemble(b, gb));
    } else {
        lemma_reassemble_append(a.skip(1), ga.skip(1), b, gb);
        assert((a + b).skip(1) =~= a.skip(1) + b);
        assert((ga + gb).skip(1) =~= ga.skip(1) + gb);
        assert((a + b)[0] == a[0]);
        assert((ga + gb)[0] == ga[0]);
        assert(reassemble(a + b, ga + gb) == lexeme_bytes(a[0]) + ga[0] + reassemble(
            a.skip(1) + b,
            ga.skip(1) + gb,
        ));
        assert(reassemble(a, ga) == lexeme_bytes(a[0]) + ga[0] + reassemble(
            a.skip(1),
            ga.skip(1),
        ));
        assert(lexeme_bytes(a[0]) + ga[0] + (reassemble(a.skip(1), ga.skip(1)) + reassemble(
            b,
            gb,
        )) =~= (lexeme_bytes(a[0]) + ga[0] + reassemble(a.skip(1), ga.skip(1))) + reassemble(
            b,
            gb,
        ));
    }
}

proof fn lemma_reassemble_step(
    pending: Seq<u8>,
    x: LexemeView,
    g: Seq<u8>,
    r: Seq<LexemeView>,
    gr: Seq<Seq<u8>>,
    rest: Seq<u8>,
)
    requires
        r.len() == gr.len(),
        reassemble(r, gr) == rest,
    ensures
        reassemble(spec_flush(pending) + seq![x] + r, gap_flush(pending) + seq![g] + gr)
            == pending + (lexeme_bytes(x) + g + rest),
{
    let a = spec_flush(pending) + seq![x];
    let ga = gap_flush(pending) + seq![g];
    assert(a.len() == ga.len());
    assert(spec_flush(pending) + seq![x] + r =~= a + r);
    assert(gap_flush(pending) + seq![g] + gr =~= ga + gr);
    lemma_reassemble_append(a, ga, r, gr);
    assert(seq![x].skip(1) =~= Seq::<LexemeView>::empty());
    assert(seq![g].skip(1) =~= Seq::<Seq<u8>>::empty());
    assert(reassemble(Seq::<LexemeView>::empty(), Seq::<Seq<u8>>::empty())
        == Seq::<u8>::empty());
    assert(reassemble(seq![x], seq![g]) == lexeme_bytes(x) + g + Seq::<u8>::empty());
    if pending.len() > 0 {
        assert(a[0] == LexemeView::Lit(pending));
        assert(ga[0] == Seq::<u8>::empty());
        assert(a.skip(1) =~= seq![x]);
        assert(ga.skip(1) =~= seq![g]);
        assert(reassemble(a, ga) == pending + Seq::<u8>::empty() + (lexeme_bytes(x) + g
            + Seq::<u8>::empty()));
        assert(reassemble(a, ga) + rest =~= pending + (lexeme_bytes(x) + g + rest));
    } else {
        assert(a =~= seq![x]);
        assert(ga =~= seq![g]);
        assert(reassemble(a, ga) == lexeme_bytes(x) + g + Seq::<u8>::empty());
        assert(reassemble(a, ga) + rest =~= pending + (lexeme_bytes(x) + g + rest));
    }
}

/// The shape of a well-formed literal lexeme: it is non-empty and holds no
/// punctuation byte.  Tokens are always well formed under this predicate.
pub open spec fn literal_wf(l: LexemeView) -> bool {
    l matches LexemeView::Lit(bytes) ==> (bytes.len() > 0 && (forall|k: int|
        0 <= k < bytes.len() ==> token_of_byte(#[trigger] bytes[k]) is None))
}

proof fn lemma_literal_wf_glue(
    f: Seq<LexemeView>,
    x: LexemeView,
    r: Seq<LexemeView>,
    all: Seq<LexemeView>,
)
    requires
        all == f + seq![x] + r,
        forall|g: int| 0 <= g < f.len() ==> literal_wf(#[trigger] f[g]),
        literal_wf(x),
        forall|g: int| 0 <= g < r.len() ==> literal_wf(#[trigger] r[g]),
    ensures
        forall|g: int| 0 <= g < all.len() ==> literal_wf(#[trigger] all[g]),
{
    assert forall|g: int| 0 <= g < all.len() implies literal_wf(all[g]) by {
        if g < f.len() {
            assert(all[g] == f[g]);
        } else if g == f.len() {
            assert(all[g] == x);
        } else {
            assert(all[g] == r[g - f.len() - 1]);
        }
    }
}

proof fn lemma_lex_literals_wf_rec(input: Seq<u8>, pending: Seq<u8>)
    requires
        forall|k: int| 0 <= k < pending.len() ==> token_of_byte(#[trigger] pending[k]) is None,
    ensures
        forall|g: int|
            0 <= g < spec_lex(input, pending).len() ==> literal_wf(
                #[trigger] spec_lex(input, pending)[g],
            ),
    decreases input.len(),
{
    if input.len() == 0 {
        assert forall|g: int|
            0 <= g < spec_lex(input, pending).len() implies literal_wf(
            #[trigger] spec_lex(input, pending)[g],
        ) by {
            assert(spec_lex(input, pending) == spec_flush(pending));
            assert(spec_lex(input, pending)[g] == LexemeView::Lit(pending));
        }
    } else {
        let b = input[0];
        match token_of_byte(b) {
            Some(t) => {
                lemma_skip_spaces_len(input.skip(1));
                lemma_skip_newlines_len(skip_spaces(input.skip(1)));
                let rest = skip_newlines(skip_spaces(input.skip(1)));
                lemma_lex_literals_wf_rec(rest, Seq::empty());
                lemma_literal_wf_glue(
                    spec_flush(pending),
                    LexemeView::Punct(t),
                    spec_lex(rest, Seq::empty()),
                    spec_lex(input, pending),
                );
            },
            None => {
                if b == 102 && input.len() >= 2 && input[1] == 110 {
                    lemma_skip_spaces_len(input.skip(2));
                    let rest = skip_spaces(input.skip(2));
                    lemma_lex_literals_wf_rec(rest, Seq::empty());
                    lemma_literal_wf_glue(
                        spec_flush(pending),
                        LexemeView::Keyword(VarToken::Fn),
                        spec_lex(rest, Seq::empty()),
                        spec_lex(input, pending),
                    );
                } else if b == 108 && input.len() >= 3 && input[1] == 101 && input[2] == 116 {
                    lemma_skip_spaces_len(input.skip(3));
                    let rest = skip_spaces(input.skip(3));
                    lemma_lex_literals_wf_rec(rest, Seq::empty());
                    lemma_literal_wf_glue(
                        spec_flush(pending),
                        LexemeView::Keyword(VarToken::Let),
                        spec_lex(rest, Seq::empty()),
                        spec_lex(input, pending),
                    );
                } else if b == 105 && input.len() >= 2 && input[1] == 102 {
                    lemma_lex_literals_wf_rec(input.skip(2), Seq::empty());
                    lemma_literal_wf_glue(
                        spec_flush(pending),
                        LexemeView::Keyword(VarToken::If),
                        spec_lex(input.skip(2), Seq::empty()),
                        spec_lex(input, pending),
                    );
                } else if b == 101 && input.len() >= 4 && input[1] == 108 && input[2] == 115
                    && input[3] == 101 {
                    lemma_lex_literals_wf_rec(input.skip(4), Seq::empty());
                    lemma_literal_wf_glue(
                        spec_flush(pending),
                        LexemeView::Keyword(VarToken::Else),
                        spec_lex(input.skip(4), Seq::empty()),
                        spec_lex(input, pending),
                    );
                } else if b == 101 && input.len() >= 4 && input[1] == 110 && input[2] == 117
                    && input[3] == 109 {
                    lemma_lex_literals_wf_rec(input.skip(4), Seq::empty());
                    lemma_literal_wf_glue(
                        spec_flush(pending),
                        LexemeView::Keyword(VarToken::Enum),
                        spec_lex(input.skip(4), Seq::empty()),
                        spec_lex(input, pending),
                    );
                } else if b == 115 && input.len() >= 6 && input[1] == 116 && input[2] == 114
                    && input[3] == 117 && input[4] == 99 && input[5] == 116 {
                    lemma_skip_spaces_len(input.skip(6));
                    let rest = skip_spaces(input.skip(6));
                    lemma_lex_literals_wf_rec(rest, Seq::empty());
                    lemma_literal_wf_glue(
                        spec_flush(pending),
                        LexemeView::Keyword(VarToken::Struct),
                        spec_lex(rest, Seq::empty()),
                        spec_lex(input, pending),
                    );
                } else {
                    assert forall|k: int|
                        0 <= k < pending.push(b).len() implies token_of_byte(
                        #[trigger] pending.push(b)[k],
                    ) is None by {
                        if k < pending.len() {
                            assert(pending.push(b)[k] == pending[k]);
                        }
                    }
                    lemma_lex_literals_wf_rec(input.skip(1), pending.push(b));
                    assert forall|g: int|
                        0 <= g < spec_lex(input, pending).len() implies literal_wf(
                        #[trigger] spec_lex(input, pending)[g],
                    ) by {
                        assert(spec_lex(input, pending)[g] == spec_lex(
                            input.skip(1),
                            pending.push(b),
                        )[g]);
                    }
                }
            },
        }
    }
}

/// The representation invariant of literal spans: every literal lexeme the
/// lexer returns is non-empty and holds no punctuation byte, since a
/// punctuation byte always flushes the pending literal before becoming a
/// token of its own.
pub proof fn lemma_lex_literals_wf(input: Seq<u8>)
    ensures
        forall|g: int|
            0 <= g < spec_lex(input, Seq::empty()).len() ==> literal_wf(
                #[trigger] spec_lex(input, Seq::empty())[g],
            ),
{
    lemma_lex_literals_wf_rec(input, Seq::empty());
}

/// Losslessness of the lexer: interleaving the bytes underlying the
/// returned lexemes with the elided space and newline runs, in order,
/// reconstructs the pending buffer followed by the input exactly; there is
/// one elided run per lexeme; and every elided run consists of spaces and
/// newlines only.  For a whole source, read it with `pending` empty.
pub proof fn lemma_lex_lossless(input: Seq<u8>, pending: Seq<u8>)
    ensures
        spec_lex_gaps(input, pending).len() == spec_lex(input, pending).len(),
        reassemble(spec_lex(input, pending), spec_lex_gaps(input, pending)) == pending + input,
        forall|g: int|
            0 <= g < spec_lex_gaps(input, pending).len() ==> all_blank(
                #[trigger] spec_lex_gaps(input, pending)[g],
            ),
    decreases input.len(),
{
    let ls = spec_lex(input, pending);
    let gs = spec_lex_gaps(input, pending);
    if input.len() == 0 {
        if pending.len() > 0 {
            assert(seq![LexemeView::Lit(pending)].skip(1) =~= Seq::<LexemeView>::empty());
            assert(seq![Seq::<u8>::empty()].skip(1) =~= Seq::<Seq<u8>>::empty());
            assert(reassemble(Seq::<LexemeView>::empty(), Seq::<Seq<u8>>::empty())
                == Seq::<u8>::empty());
            assert(reassemble(ls, gs) == pending + Seq::<u8>::empty() + Seq::<u8>::empty());
            assert(reassemble(ls, gs) =~= pending + input);
        } else {
            assert(reassemble(ls, gs) =~= pending + input);
        }
    } else {
        let b = input[0];
        match token_of_byte(b) {
            Some(t) => {
                let t1 = input.skip(1);
                let u = skip_spaces(t1);
                let rest = skip_newlines(u);
                let g = punct_gap(t1);
                lemma_skip_spaces_len(t1);
                lemma_skip_newlines_len(u);
                lemma_lex_lossless(rest, Seq::empty());
                lemma_space_run(t1);
                lemma_newline_run(u);
                lemma_blank_concat(space_run(t1), newline_run(u));
                assert(byte_of_token(t) == b);
                assert((space_run(t1) + newline_run(u)) + rest =~= space_run(t1) + (newline_run(u)
                    + rest));
                assert(g + rest == t1);
                assert(seq![b] + t1 =~= input);
                assert(lexeme_bytes(LexemeView::Punct(t)) + g + rest =~= lexeme_bytes(
                    LexemeView::Punct(t),
                ) + (g + rest));
                assert(lexeme_bytes(LexemeView::Punct(t)) + g + rest == input);
                lemma_reassemble_step(
                    pending,
                    LexemeView::Punct(t),
                    g,
                    spec_lex(rest, Seq::empty()),
                    spec_lex_gaps(rest, Seq::empty()),
                    rest,
                );
                lemma_lex_lossless_glue(pending, g, spec_lex_gaps(rest, Seq::empty()));
            },
            None => {
                if b == 102 && input.len() >= 2 && input[1] == 110 {
                    let t1 = input.skip(2);
                    let rest = skip_spaces(t1);
                    let g = space_run(t1);
                    lemma_skip_spaces_len(t1);
                    lemma_lex_lossless(rest, Seq::empty());
                    lemma_space_run(t1);
                    assert(g + rest == t1);
                    assert(keyword_spelling(VarToken::Fn) + t1 =~= input);
                    assert(lexeme_bytes(LexemeView::Keyword(VarToken::Fn)) + g + rest
                        =~= lexeme_bytes(LexemeView::Keyword(VarToken::Fn)) + (g + rest));
                    assert(lexeme_bytes(LexemeView::Keyword(VarToken::Fn)) + g + rest == input);
                    lemma_reassemble_step(
                        pending,
                        LexemeView::Keyword(VarToken::Fn),
                        g,
                        spec_lex(rest, Seq::empty()),
                        spec_lex_gaps(rest, Seq::empty()),
                        rest,
                    );
                    lemma_lex_lossless_glue(pending, g, spec_lex_gaps(rest, Seq::empty()));
                } else if b == 108 && input.len() >= 3 && input[1] == 101 && input[2] == 116 {
                    let t1 = input.skip(3);
                    let rest = skip_spaces(t1);
                    let g = space_run(t1);
                    lemma_skip_spaces_len(t1);
                    lemma_lex_lossless(rest, Seq::empty());
                    lemma_space_run(t1);
                    assert(g + rest == t1);
                    assert(keyword_spelling(VarToken::Let) + t1 =~= input);
                    assert(lexeme_bytes(LexemeView::Keyword(VarToken::Let)) + g + rest
                        =~= lexeme_bytes(LexemeView::Keyword(VarToken::Let)) + (g + rest));
                    assert(lexeme_bytes(LexemeView::Keyword(VarToken::Let)) + g + rest == input);
                    lemma_reassemble_step(
                        pending,
                        LexemeView::Keyword(VarToken::Let),
                        g,
                        spec_lex(rest, Seq::empty()),
                        spec_lex_gaps(rest, Seq::empty()),
                        rest,
                    );
                    lemma_lex_lossless_glue(pending, g, spec_lex_gaps(rest, Seq::empty()));
                } else if b == 105 && input.len() >= 2 && input[1] == 102 {
                    let rest = input.skip(2);
                    let g = Seq::<u8>::empty();
                    lemma_lex_lossless(rest, Seq::empty());
                    assert(g + rest =~= rest);
                    assert(keyword_spelling(VarToken::If) + rest =~= input);
                    assert(lexeme_bytes(LexemeView::Keyword(VarToken::If)) + g + rest
                        =~= lexeme_bytes(LexemeView::Keyword(VarToken::If)) + (g + rest));
                    assert(lexeme_bytes(LexemeView::Keyword(VarToken::If)) + g + rest == input);
                    lemma_reassemble_step(
                        pending,
                        LexemeView::Keyword(VarToken::If),
                        g,
                        spec_lex(rest, Seq::empty()),
                        spec_lex_gaps(rest, Seq::empty()),
                        rest,
                    );
                    lemma_lex_lossless_glue(pending, g, spec_lex_gaps(rest, Seq::empty()));
                } else if b == 101 && input.len() >= 4 && input[1] == 108 && input[2] == 115
                    && input[3] == 101 {
                    let rest = input.skip(4);
                    let g = Seq::<u8>::empty();
                    lemma_lex_lossless(rest, Seq::empty());
                    assert(g + rest =~= rest);
                    assert(keyword_spelling(VarToken::Else) + rest =~= input);
                    assert(lexeme_bytes(LexemeView::Keyword(VarToken::Else)) + g + rest
                        =~= lexeme_bytes(LexemeView::Keyword(VarToken::Else)) + (g + rest));
                    assert(lexeme_bytes(LexemeView::Keyword(VarToken::Else)) + g + rest == input);
                    lemma_reassemble_step(
                        pending,
                        LexemeView::Keyword(VarToken::Else),
                        g,
                        spec_lex(rest, Seq::empty()),
                        spec_lex_gaps(rest, Seq::empty()),
                        rest,
                    );
                    lemma_lex_lossless_glue(pending, g, spec_lex_gaps(rest, Seq::empty()));
                } else if b == 101 && input.len() >= 4 && input[1] == 110 && input[2] == 117
                    && input[3] == 109 {
                    let rest = input.skip(4);
                    let g = Seq::<u8>::empty();
                    lemma_lex_lossless(rest, Seq::empty());
                    assert(g + rest =~= rest);
                    assert(keyword_spelling(VarToken::Enum) + rest =~= input);
                    assert(lexeme_bytes(LexemeView::Keyword(VarToken::Enum)) + g + rest
                        =~= lexeme_bytes(LexemeView::Keyword(VarToken::Enum)) + (g + rest));
                    assert(lexeme_bytes(LexemeView::Keyword(VarToken::Enum)) + g + rest == input);
                    lemma_reassemble_step(
                        pending,
                        LexemeView::Keyword(VarToken::Enum),
                        g,
                        spec_lex(rest, Seq::empty()),
                        spec_lex_gaps(rest, Seq::empty()),
                        rest,
                    );
                    lemma_lex_lossless_glue(pending, g, spec_lex_gaps(rest, Seq::empty()));
                } else if b == 115 && input.len() >= 6 && input[1] == 116 && input[2] == 114
                    && input[3] == 117 && input[4] == 99 && input[5] == 116 {
                    let t1 = input.skip(6);
                    let rest = skip_spaces(t1);
                    let g = space_run(t1);
                    lemma_skip_spaces_len(t1);
                    lemma_lex_lossless(rest, Seq::empty());
                    lemma_space_run(t1);
                    assert(g + rest == t1);
                    assert(keyword_spelling(VarToken::Struct) + t1 =~= input);
                    assert(lexeme_bytes(LexemeView::Keyword(VarToken::Struct)) + g + rest
                        =~= lexeme_bytes(LexemeView::Keyword(VarToken::Struct)) + (g + rest));
                    assert(lexeme_bytes(LexemeView::Keyword(VarToken::Struct)) + g + rest == input);
                    lemma_reassemble_step(
                        pending,
                        LexemeView::Keyword(VarToken::Struct),
                        g,
                        spec_lex(rest, Seq::empty()),
                        spec_lex_gaps(rest, Seq::empty()),
                        rest,
                    );
                    lemma_lex_lossless_glue(pending, g, spec_lex_gaps(rest, Seq::empty()));
                } else {
                    lemma_lex_lossless(input.skip(1), pending.push(b));
                    assert(pending.push(b) + input.skip(1) =~= pending + input);
                }
            },
        }
    }
}

proof fn lemma_lex_lossless_glue(pending: Seq<u8>, g: Seq<u8>, gr: Seq<Seq<u8>>)
    requires
        all_blank(g),
        forall|i: int| 0 <= i < gr.len() ==> all_blank(#[trigger] gr[i]),
    ensures
        forall|i: int|
            0 <= i < (gap_flush(pending) + seq![g] + gr).len() ==> all_blank(
                #[trigger] (gap_flush(pending) + seq![g] + gr)[i],
            ),
{
    let gf = gap_flush(pending);
    assert forall|i: int|
        0 <= i < (gf + seq![g] + gr).len() implies all_blank((gf + seq![g] + gr)[i]) by {
        if i < gf.len() {
            assert((gf + seq![g] + gr)[i] == gf[i]);
            assert(gf[i] == Seq::<u8>::empty());
        } else if i == gf.len() {
            assert((gf + seq![g] + gr)[i] == g);
        } else {
            assert((gf + seq![g] + gr)[i] == gr[i - gf.len() - 1]);
        }
    }
}

/// Copies a byte vector.
pub(crate) fn copy_bytes(src: &Vec<u8>) -> (r: Vec<u8>)
    ensures
        r@ == src@,
{
    let mut r: Vec<u8> = Vec::new();
    let mut i: usize = 0;
    while i < src.len()
        invariant
            i <= src@.len(),
            r@ == src@.take(i as int),
        decreases src@.len() - i,
    {
        r.push(src[i]);
        i = i + 1;
        proof {
            assert(r@ =~= src@.take(i as int));
        }
    }
    proof {
        assert(src@.take(src@.len() as int) =~= src@);
    }
    r
}

/// Flushes the pending literal buffer into the lexeme list, emptying it.
fn flush_curr_literal(lexems: &mut Vec<Lexeme>, current_literal: &mut Vec<u8>)
    ensures
        lexeme_views(final(lexems)@) == lexeme_views(old(lexems)@) + spec_flush(
            old(current_literal)@,
        ),
        final(current_literal)@ == Seq::<u8>::empty(),
{
    if current_literal.len() > 0 {
        let copied = copy_bytes(current_literal);
        lexems.push(Lexeme::TokenLiteral(copied));
        current_literal.clear();
        proof {
            assert(lexeme_views(lexems@) =~= lexeme_views(old(lexems)@) + spec_flush(
                old(current_literal)@,
            ));
        }
    } else {
        proof {
            assert(lexeme_views(lexems@) =~= lexeme_views(old(lexems)@) + spec_flush(
                old(current_literal)@,
            ));
        }
    }
}

/// Advances past the run of space bytes that starts at `start`.
fn flush_whitespace(literal: &Vec<u8>, start: usize) -> (j: usize)
    requires
        start <= literal@.len(),
    ensures
        start <= j <= literal@.len(),
        literal@.skip(j as int) == skip_spaces(literal@.skip(start as int)),
{
    let mut j = start;
    while j < literal.len() && literal[j] == 32
        invariant
            start <= j <= literal@.len(),
            skip_spaces(literal@.skip(start as int)) == skip_spaces(literal@.skip(j as int)),
        decreases literal@.len() - j,
    {
        proof {
            assert(literal@.skip(j as int).skip(1) =~= literal@.skip(j as int + 1));
        }
        j = j + 1;
    }
    proof {
        assert(skip_spaces(literal@.skip(j as int)) == literal@.skip(j as int));
    }
    j
}

/// Advances past the run of newline bytes that starts at `start`.
fn flush_newline(literal: &Vec<u8>, start: usize) -> (j: usize)
    requires
        start <= literal@.len(),
    ensures
        start <= j <= literal@.len(),
        literal@.skip(j as int) == skip_newlines(literal@.skip(start as int)),
{
    let mut j = start;
    while j < literal.len() && literal[j] == 10
        invariant
            start <= j <= literal@.len(),
            skip_newlines(literal@.skip(start as int)) == skip_newlines(literal@.skip(j as int)),
        decreases literal@.len() - j,
    {
        proof {
            assert(literal@.skip(j as int).skip(1) =~= literal@.skip(j as int + 1));
        }
        j = j + 1;
    }
    proof {
        assert(skip_newlines(literal@.skip(j as int)) == literal@.skip(j as int));
    }
    j
}

impl Lexeme {
    /// Lexes a byte sequence.  Total: every input produces a lexeme list,
    /// and the list is exactly the one `spec_lex` describes.
    pub fn from_literal(literal: Vec<u8>) -> (r: Vec<Lexeme>)
        ensures
            lexeme_views(r@) == spec_lex(literal@, Seq::empty()),
    {
        let mut lexems: Vec<Lexeme> = Vec::new();
        let mut current_literal: Vec<u8> = Vec::new();
        let mut i: usize = 0;
        proof {
            assert(lexeme_views(Seq::<Lexeme>::empty()) =~= Seq::<LexemeView>::empty());
            assert(literal@.skip(0) =~= literal@);
            assert(Seq::<LexemeView>::empty() + spec_lex(literal@, Seq::<u8>::empty()) =~= spec_lex(
                literal@,
                Seq::<u8>::empty(),
            ));
        }
        while i < literal.len()
            invariant
                i <= literal@.len(),
                spec_lex(literal@, Seq::<u8>::empty()) == lexeme_views(lexems@) + spec_lex(
                    literal@.skip(i as int),
                    current_literal@,
                ),
            decreases literal@.len() - i,
        {
            let ghost rem = literal@.skip(i as int);
            let ghost pend = current_literal@;
            let ghost lex0 = lexems@;
            let n = literal.len() - i;
            let curr_token = literal[i];
            proof {
                assert(rem.len() == n);
                assert(rem[0] == curr_token);
                assert(rem.skip(1) =~= literal@.skip(i as int + 1));
            }
            match Token::from_char(curr_token) {
                Some(x) => {
                    flush_curr_literal(&mut lexems, &mut current_literal);
                    lexems.push(Lexeme::ByteToken(x));
                    let j = flush_whitespace(&literal, i + 1);
                    let j2 = flush_newline(&literal, j);
                    proof {
                        assert(spec_lex(rem, pend) == spec_flush(pend) + seq![
                            LexemeView::Punct(x),
                        ] + spec_lex(literal@.skip(j2 as int), Seq::<u8>::empty()));
                        assert(lexeme_views(lexems@) =~= lexeme_views(lex0) + spec_flush(pend)
                            + seq![LexemeView::Punct(x)]);
                        assert(lexeme_views(lexems@) + spec_lex(
                            literal@.skip(j2 as int),
                            Seq::<u8>::empty(),
                        ) =~= lexeme_views(lex0) + spec_lex(rem, pend));
                    }
                    i = j2;
                },
                None => {
                    if curr_token == 102 && n >= 2 && literal[i + 1] == 110 {
                        flush_curr_literal(&mut lexems, &mut current_literal);
                        lexems.push(Lexeme::VariableByteToken(VarToken::Fn));
                        let j = flush_whitespace(&literal, i + 2);
                        proof {
                            assert(rem.skip(2) =~= literal@.skip(i as int + 2));
                            assert(spec_lex(rem, pend) == spec_flush(pend) + seq![
                                LexemeView::Keyword(VarToken::Fn),
                            ] + spec_lex(literal@.skip(j as int), Seq::<u8>::empty()));
                            assert(lexeme_views(lexems@) =~= lexeme_views(lex0) + spec_flush(pend)
                                + seq![LexemeView::Keyword(VarToken::Fn)]);
                            assert(lexeme_views(lexems@) + spec_lex(
                                literal@.skip(j as int),
                                Seq::<u8>::empty(),
                            ) =~= lexeme_views(lex0) + spec_lex(rem, pend));
                        }
                        i = j;
                    } else if curr_token == 108 && n >= 3 && literal[i + 1] == 101 && literal[i
                        + 2] == 116 {
                        flush_curr_literal(&mut lexems, &mut current_literal);
                        lexems.push(Lexeme::VariableByteToken(VarToken::Let));
                        let j = flush_whitespace(&literal, i + 3);
                        proof {
                            assert(rem.skip(3) =~= literal@.skip(i as int + 3));
                            assert(spec_lex(rem, pend) == spec_flush(pend) + seq![
                                LexemeView::Keyword(VarToken::Let),
                            ] + spec_lex(literal@.skip(j as int), Seq::<u8>::empty()));
                            assert(lexeme_views(lexems@) =~= lexeme_views(lex0) + spec_flush(pend)
                                + seq![LexemeView::Keyword(VarToken::Let)]);
                            assert(lexeme_views(lexems@) + spec_lex(
                                literal@.skip(j as int),
                                Seq::<u8>::empty(),
                            ) =~= lexeme_views(lex0) + spec_lex(rem, pend));
                        }
                        i = j;
                    } else if curr_token == 105 && n >= 2 && literal[i + 1] == 102 {
                        flush_curr_literal(&mut lexems, &mut current_literal);
                        lexems.push(Lexeme::VariableByteToken(VarToken::If));
                        proof {
                            assert(rem.skip(2) =~= literal@.skip(i as int + 2));
                            assert(spec_lex(rem, pend) == spec_flush(pend) + seq![
                                LexemeView::Keyword(VarToken::If),
                            ] + spec_lex(literal@.skip(i as int + 2), Seq::<u8>::empty()));
                            assert(lexeme_views(lexems@) =~= lexeme_views(lex0) + spec_flush(pend)
                                + seq![LexemeView::Keyword(VarToken::If)]);
                            assert(lexeme_views(lexems@) + spec_lex(
                                literal@.skip(i as int + 2),
                                Seq::<u8>::empty(),
                            ) =~= lexeme_views(lex0) + spec_lex(rem, pend));
                        }
                        i = i + 2;
                    } else if curr_token == 101 && n >= 4 && literal[i + 1] == 108 && literal[i
                        + 2] == 115 && literal[i + 3] == 101 {
                        flush_curr_literal(&mut lexems, &mut current_literal);
                        lexems.push(Lexeme::VariableByteToken(VarToken::Else));
                        proof {
                            assert(rem.skip(4) =~= literal@.skip(i as int + 4));
                            assert(spec_lex(rem, pend) == spec_flush(pend) + seq![
                                LexemeView::Keyword(VarToken::Else),
                            ] + spec_lex(literal@.skip(i as int + 4), Seq::<u8>::empty()));
                            assert(lexeme_views(lexems@) =~= lexeme_views(lex0) + spec_flush(pend)
                                + seq![LexemeView::Keyword(VarToken::Else)]);
                            assert(lexeme_views(lexems@) + spec_lex(
                                literal@.skip(i as int + 4),
                                Seq::<u8>::empty(),
                            ) =~= lexeme_views(lex0) + spec_lex(rem, pend));
                        }
                        i = i + 4;
                    } else if curr_token == 101 && n >= 4 && literal[i + 1] == 110 && literal[i
                        + 2] == 117 && literal[i + 3] == 109 {
                        flush_curr_literal(&mut lexems, &mut current_literal);
                        lexems.push(Lexeme::VariableByteToken(VarToken::Enum));
                        proof {
                            assert(rem.skip(4) =~= literal@.skip(i as int + 4));
                            assert(spec_lex(rem, pend) == spec_flush(pend) + seq![
                                LexemeView::Keyword(VarToken::Enum),
                            ] + spec_lex(literal@.skip(i as int + 4), Seq::<u8>::empty()));
                            assert(lexeme_views(lexems@) =~= lexeme_views(lex0) + spec_flush(pend)
                                + seq![LexemeView::Keyword(VarToken::Enum)]);
                            assert(lexeme_views(lexems@) + spec_lex(
                                literal@.skip(i as int + 4),
                                Seq::<u8>::empty(),
                            ) =~= lexeme_views(lex0) + spec_lex(rem, pend));
                        }
                        i = i + 4;
                    } else if curr_token == 115 && n >= 6 && literal[i + 1] == 116 && literal[i
                        + 2] == 114 && literal[i + 3] == 117 && literal[i + 4] == 99
                        && literal[i + 5] == 116 {
                        flush_curr_literal(&mut lexems, &mut current_literal);
                        lexems.push(Lexeme::VariableByteToken(VarToken::Struct));
                        let j = flush_whitespace(&literal, i + 6);
                        proof {
                            assert(rem.skip(6) =~= literal@.skip(i as int + 6));
                            assert(spec_lex(rem, pend) == spec_flush(pend) + seq![
                                LexemeView::Keyword(VarToken::Struct),
                            ] + spec_lex(literal@.skip(j as int), Seq::<u8>::empty()));
                            assert(lexeme_views(lexems@) =~= lexeme_views(lex0) + spec_flush(pend)
                                + seq![LexemeView::Keyword(VarToken::Struct)]);
                            assert(lexeme_views(lexems@) + spec_lex(
                                literal@.skip(j as int),
                                Seq::<u8>::empty(),
                            ) =~= lexeme_views(lex0) + spec_lex(rem, pend));
                        }
                        i = j;
                    } else {
                        current_literal.push(curr_token);
                        proof {
                            assert(spec_lex(rem, pend) == spec_lex(
                                literal@.skip(i as int + 1),
                                pend.push(curr_token),
                            ));
                            assert(current_literal@ == pend.push(curr_token));
                        }
                        i = i + 1;
                    }
                },
            }
        }
        let ghost lexf = lexems@;
        let ghost pendf = current_literal@;
        flush_curr_literal(&mut lexems, &mut current_literal);
        proof {
            assert(literal@.skip(literal@.len() as int) =~= Seq::<u8>::empty());
            assert(spec_lex(literal@.skip(i as int), pendf) == spec_flush(pendf));
            assert(lexeme_views(lexems@) =~= spec_lex(literal@, Seq::<u8>::empty()));
        }
        lexems
    }
}

} // verus!
