use vstd::prelude::*;
use crate::unicode::{is_whitespace_char, is_alphabetic_char, is_alphanumeric_char, flatten_range, lemma_flatten_range_split};
use crate::decimal::{is_digit_char, digits_val};
use crate::token::{TokenS, Symbol, Keyword, keyword_of};
use crate::error::ErrorKind;

verus! {

/// The one-character grapheme holding `c`.
pub open spec fn single(c: char) -> Seq<char> {
    seq![c]
}

/// Whether a grapheme's leading character is whitespace.
pub open spec fn is_ws_g(g: Seq<char>) -> bool {
    g.len() >= 1 && is_whitespace_char(g[0])
}

/// Whether a grapheme's leading character is a decimal digit.
pub open spec fn is_digit_g(g: Seq<char>) -> bool {
    g.len() >= 1 && is_digit_char(g[0])
}

/// Whether a grapheme can start a word: alphabetic, or the underscore.
pub open spec fn is_word_start_g(g: Seq<char>) -> bool {
    (g.len() >= 1 && is_alphabetic_char(g[0])) || g == single('_')
}

/// Whether a grapheme can continue a word: alphanumeric, or the underscore.
pub open spec fn is_word_g(g: Seq<char>) -> bool {
    (g.len() >= 1 && is_alphanumeric_char(g[0])) || g == single('_')
}

/// End of the maximal whitespace run from `pos`.
pub open spec fn scan_ws(gs: Seq<Seq<char>>, pos: int) -> int
    decreases gs.len() - pos,
{
    if pos < gs.len() && is_ws_g(gs[pos]) {
        scan_ws(gs, pos + 1)
    } else {
        pos
    }
}

/// Position of the next newline grapheme at or after `pos`, or the input's
/// end.
pub open spec fn scan_to_newline(gs: Seq<Seq<char>>, pos: int) -> int
    decreases gs.len() - pos,
{
    if pos < gs.len() && gs[pos] != single('\n') {
        scan_to_newline(gs, pos + 1)
    } else {
        pos
    }
}

/// Scan a block comment from the opening `/` at `pos`: the position after the
/// closing `*/` pair, or the position of the end of input if the comment never
/// closes.
pub open spec fn scan_block_comment(gs: Seq<Seq<char>>, pos: int) -> Result<int, int>
    decreases gs.len() - pos,
{
    if pos + 1 < gs.len() && gs[pos] == single('*') && gs[pos + 1] == single('/') {
        Ok(pos + 2)
    } else if pos >= gs.len() {
        Err(pos)
    } else {
        scan_block_comment(gs, pos + 1)
    }
}

/// Position of the closing quote of a string literal whose body starts at
/// `pos`, or the input's end if there is none.
pub open spec fn scan_string(gs: Seq<Seq<char>>, pos: int) -> int
    decreases gs.len() - pos,
{
    if pos < gs.len() && gs[pos] != single('"') {
        scan_string(gs, pos + 1)
    } else {
        pos
    }
}

/// Scan the continuation of a numeric run: digits and at most one dot.
/// `Ok((end, has_dec))` gives the end of the run and whether a dot occurred;
/// `Err(p)` reports a second dot at `p`.
pub open spec fn scan_number(gs: Seq<Seq<char>>, pos: int, has_dec: bool) -> Result<
    (int, bool),
    int,
>
    decreases gs.len() - pos,
{
    if pos < gs.len() && gs[pos] == single('.') {
        if has_dec {
            Err(pos)
        } else {
            scan_number(gs, pos + 1, true)
        }
    } else if pos < gs.len() && is_digit_g(gs[pos]) {
        scan_number(gs, pos + 1, has_dec)
    } else {
        Ok((pos, has_dec))
    }
}

/// End of the maximal word run from `pos`.
pub open spec fn scan_word(gs: Seq<Seq<char>>, pos: int) -> int
    decreases gs.len() - pos,
{
    if pos < gs.len() && is_word_g(gs[pos]) {
        scan_word(gs, pos + 1)
    } else {
        pos
    }
}

pub proof fn lemma_scan_ws_bounds(gs: Seq<Seq<char>>, pos: int)
    requires
        0 <= pos <= gs.len(),
    ensures
        pos <= scan_ws(gs, pos) <= gs.len(),
    decreases gs.len() - pos,
{
    if pos < gs.len() && is_ws_g(gs[pos]) {
        lemma_scan_ws_bounds(gs, pos + 1);
    }
}

pub proof fn lemma_scan_to_newline_bounds(gs: Seq<Seq<char>>, pos: int)
    requires
        0 <= pos <= gs.len(),
    ensures
        pos <= scan_to_newline(gs, pos) <= gs.len(),
    decreases gs.len() - pos,
{
    if pos < gs.len() && gs[pos] != single('\n') {
        lemma_scan_to_newline_bounds(gs, pos + 1);
    }
}

pub proof fn lemma_scan_block_comment_bounds(gs: Seq<Seq<char>>, pos: int)
    requires
        0 <= pos <= gs.len(),
    ensures
        match scan_block_comment(gs, pos) {
            Ok(e) => pos + 2 <= e <= gs.len(),
            Err(p) => p == gs.len(),
        },
    decreases gs.len() - pos,
{
    if pos + 1 < gs.len() && gs[pos] == single('*') && gs[pos + 1] == single('/') {
    } else if pos >= gs.len() {
    } else {
        lemma_scan_block_comment_bounds(gs, pos + 1);
    }
}

pub proof fn lemma_scan_string_bounds(gs: Seq<Seq<char>>, pos: int)
    requires
        0 <= pos <= gs.len(),
    ensures
        pos <= scan_string(gs, pos) <= gs.len(),
    decreases gs.len() - pos,
{
    if pos < gs.len() && gs[pos] != single('"') {
        lemma_scan_string_bounds(gs, pos + 1);
    }
}

pub proof fn lemma_scan_number_bounds(gs: Seq<Seq<char>>, pos: int, has_dec: bool)
    requires
        0 <= pos <= gs.len(),
    ensures
        match scan_number(gs, pos, has_dec) {
            Ok(r) => pos <= r.0 <= gs.len(),
            Err(p) => pos <= p < gs.len(),
        },
    decreases gs.len() - pos,
{
    if pos < gs.len() && gs[pos] == single('.') {
        if !has_dec {
            lemma_scan_number_bounds(gs, pos + 1, true);
        }
    } else if pos < gs.len() && is_digit_g(gs[pos]) {
        lemma_scan_number_bounds(gs, pos + 1, has_dec);
    }
}

pub proof fn lemma_scan_word_bounds(gs: Seq<Seq<char>>, pos: int)
    requires
        0 <= pos <= gs.len(),
    ensures
        pos <= scan_word(gs, pos) <= gs.len(),
    decreases gs.len() - pos,
{
    if pos < gs.len() && is_word_g(gs[pos]) {
        lemma_scan_word_bounds(gs, pos + 1);
    }
}

/// Skip whitespace runs and comments from `pos`.  `Ok(p)` is the position of
/// the first grapheme that starts a token (or the end of input); `Err(p)`
/// reports a comment that ran off the end of the input.
pub open spec fn skip_trivia(gs: Seq<Seq<char>>, pos: int) -> Result<int, int>
    decreases gs.len() - pos,
{
    if pos < 0 || pos >= gs.len() {
        Ok(pos)
    } else if gs[pos] == single('/') {
        if pos + 1 < gs.len() && gs[pos + 1] == single('*') {
            match scan_block_comment(gs, pos) {
                Ok(e) => {
                    proof {
                        lemma_scan_block_comment_bounds(gs, pos);
                    }
                    skip_trivia(gs, e)
                },
                Err(p) => Err(p),
            }
        } else if pos + 1 < gs.len() && gs[pos + 1] == single('/') {
            let e = scan_to_newline(gs, pos);
            proof {
                lemma_scan_to_newline_bounds(gs, pos);
            }
            if e < gs.len() {
                skip_trivia(gs, e + 1)
            } else {
                Err(e)
            }
        } else {
            Ok(pos)
        }
    } else if is_ws_g(gs[pos]) {
        proof {
            lemma_scan_ws_bounds(gs, pos + 1);
        }
        skip_trivia(gs, scan_ws(gs, pos + 1))
    } else {
        Ok(pos)
    }
}

pub proof fn lemma_skip_trivia_bounds(gs: Seq<Seq<char>>, pos: int)
    requires
        0 <= pos <= gs.len(),
    ensures
        match skip_trivia(gs, pos) {
            Ok(p) => pos <= p <= gs.len(),
            Err(p) => pos <= p <= gs.len(),
        },
    decreases gs.len() - pos,
{
    if pos >= gs.len() {
    } else if gs[pos] == single('/') {
        if pos + 1 < gs.len() && gs[pos + 1] == single('*') {
            lemma_scan_block_comment_bounds(gs, pos);
            if let Ok(e) = scan_block_comment(gs, pos) {
                lemma_skip_trivia_bounds(gs, e);
            }
        } else if pos + 1 < gs.len() && gs[pos + 1] == single('/') {
            lemma_scan_to_newline_bounds(gs, pos);
            let e = scan_to_newline(gs, pos);
            if e < gs.len() {
                lemma_skip_trivia_bounds(gs, e + 1);
            }
        }
    } else if is_ws_g(gs[pos]) {
        lemma_scan_ws_bounds(gs, pos + 1);
        lemma_skip_trivia_bounds(gs, scan_ws(gs, pos + 1));
    }
}

/// Whether every grapheme of a numeric run is either the dot or a plain
/// one-character digit; only such a run's text is a well-formed number.
pub open spec fn num_run_ok(gs: Seq<Seq<char>>, from: int, to: int) -> bool {
    forall|i: int| from <= i < to ==> (#[trigger] gs[i] == single('.') || (is_digit_g(gs[i])
        && gs[i].len() == 1))
}

/// Whether a grapheme starts a string literal or a symbol token.
pub open spec fn is_sym_start_g(g: Seq<char>) -> bool {
    ||| g == single('"')
    ||| g == single('+')
    ||| g == single('-')
    ||| g == single('*')
    ||| g == single('/')
    ||| g == single('%')
    ||| g == single('|')
    ||| g == single('&')
    ||| g == single('=')
    ||| g == single('!')
    ||| g == single('<')
    ||| g == single('>')
    ||| g == single('.')
    ||| g == single('(')
    ||| g == single(')')
    ||| g == single('{')
    ||| g == single('}')
    ||| g == single('[')
    ||| g == single(']')
    ||| g == single(',')
    ||| g == single(';')
    ||| g == single(':')
}

/// One step of lexing: what the token-production algorithm does at `pos`.
pub enum LexStep {
    /// Only trivia remained; the stream is exhausted at this position.
    End(int),
    /// A token, the position where its text starts (after trivia), and the
    /// position just after its text.
    Tok(TokenS, int, int),
    /// A fatal error of this kind, reported at this position.
    Fail(ErrorKind, int),
}

/// The token produced by a single-or-compound symbol: the compound form if the
/// follow-up grapheme matches, else the bare form.
pub open spec fn sym2(
    gs: Seq<Seq<char>>,
    s: int,
    follow: char,
    two: Symbol,
    one: Symbol,
) -> LexStep {
    if s + 1 < gs.len() && gs[s + 1] == single(follow) {
        LexStep::Tok(TokenS::Sym(two), s, s + 2)
    } else {
        LexStep::Tok(TokenS::Sym(one), s, s + 1)
    }
}

/// The next token of the stream, lexed from position `pos`: skip trivia, then
/// dispatch on the leading grapheme as the lexer's token-production algorithm
/// does.  It is kept opaque: the parser and its callers only ever case on its
/// result, and the lexer's own proofs reveal it.
#[verifier::opaque]
pub open spec fn next_token(gs: Seq<Seq<char>>, pos: int) -> LexStep {
    match skip_trivia(gs, pos) {
        Err(p) => LexStep::Fail(ErrorKind::UnterminatedLiteral, p),
        Ok(s) => {
            if s >= gs.len() {
                LexStep::End(s)
            } else {
                let g = gs[s];
                if g == single('"') {
                    let e = scan_string(gs, s + 1);
                    if e < gs.len() {
                        LexStep::Tok(TokenS::Str(flatten_range(gs, s + 1, e)), s, e + 1)
                    } else {
                        LexStep::Fail(ErrorKind::UnterminatedLiteral, e)
                    }
                } else if g == single('+') {
                    sym2(gs, s, '=', Symbol::PlusEqual, Symbol::Plus)
                } else if g == single('-') {
                    sym2(gs, s, '=', Symbol::MinusEqual, Symbol::Minus)
                } else if g == single('*') {
                    sym2(gs, s, '=', Symbol::StarEqual, Symbol::Star)
                } else if g == single('/') {
                    sym2(gs, s, '=', Symbol::SlashEqual, Symbol::Slash)
                } else if g == single('%') {
                    sym2(gs, s, '=', Symbol::PercentEqual, Symbol::Percent)
                } else if g == single('|') {
                    sym2(gs, s, '|', Symbol::BarBar, Symbol::Bar)
                } else if g == single('&') {
                    sym2(gs, s, '&', Symbol::AndAnd, Symbol::And)
                } else if g == single('=') {
                    sym2(gs, s, '=', Symbol::EqualEqual, Symbol::Equal)
                } else if g == single('!') {
                    sym2(gs, s, '=', Symbol::BangEqual, Symbol::Bang)
                } else if g == single('<') {
                    sym2(gs, s, '=', Symbol::LessEqual, Symbol::Less)
                } else if g == single('>') {
                    sym2(gs, s, '=', Symbol::GreaterEqual, Symbol::Greater)
                } else if g == single('.') {
                    LexStep::Tok(TokenS::Sym(Symbol::Dot), s, s + 1)
                } else if g == single('(') {
                    LexStep::Tok(TokenS::Sym(Symbol::LeftParen), s, s + 1)
                } else if g == single(')') {
                    LexStep::Tok(TokenS::Sym(Symbol::RightParen), s, s + 1)
                } else if g == single('{') {
                    LexStep::Tok(TokenS::Sym(Symbol::LeftBrace), s, s + 1)
                } else if g == single('}') {
                    LexStep::Tok(TokenS::Sym(Symbol::RightBrace), s, s + 1)
                } else if g == single('[') {
                    LexStep::Tok(TokenS::Sym(Symbol::LeftBracket), s, s + 1)
                } else if g == single(']') {
                    LexStep::Tok(TokenS::Sym(Symbol::RightBracket), s, s + 1)
                } else if g == single(',') {
                    LexStep::Tok(TokenS::Sym(Symbol::Comma), s, s + 1)
                } else if g == single(';') {
                    LexStep::Tok(TokenS::Sym(Symbol::Semicolon), s, s + 1)
                } else if g == single(':') {
                    LexStep::Tok(TokenS::Sym(Symbol::Colon), s, s + 1)
                } else if is_digit_g(g) {
                    match scan_number(gs, s + 1, false) {
                        Err(p) => LexStep::Fail(ErrorKind::MalformedNumber, p),
                        Ok((e, has_dec)) => {
                            let text = flatten_range(gs, s, e);
                            if !num_run_ok(gs, s, e) {
                                LexStep::Fail(ErrorKind::MalformedNumber, e)
                            } else if has_dec {
                                LexStep::Tok(TokenS::Double(text), s, e)
                            } else if digits_val(text) <= i32::MAX {
                                LexStep::Tok(TokenS::Int(digits_val(text) as i32), s, e)
                            } else {
                                LexStep::Fail(ErrorKind::MalformedNumber, e)
                            }
                        },
                    }
                } else if is_word_start_g(g) {
                    let e = scan_word(gs, s + 1);
                    let w = flatten_range(gs, s, e);
                    match keyword_of(w) {
                        Some(k) => LexStep::Tok(TokenS::Kw(k), s, e),
                        None => LexStep::Tok(TokenS::Id(w), s, e),
                    }
                } else {
                    LexStep::Fail(ErrorKind::UnexpectedGrapheme, s)
                }
            }
        },
    }
}

/// Every produced token spans a nonempty grapheme range after its trivia, and
/// the stream only ever moves forward.
pub proof fn lemma_next_token_bounds(gs: Seq<Seq<char>>, pos: int)
    requires
        0 <= pos <= gs.len(),
    ensures
        match next_token(gs, pos) {
            LexStep::End(e) => e == gs.len() && pos <= e,
            LexStep::Tok(t, s, e) => pos <= s < e <= gs.len(),
            LexStep::Fail(k, p) => 0 <= p <= gs.len(),
        },
{
    reveal(next_token);
    lemma_skip_trivia_bounds(gs, pos);
    match skip_trivia(gs, pos) {
        Err(p) => {},
        Ok(s) => {
            if s >= gs.len() {
            } else {
                let g = gs[s];
                if g == single('"') {
                    lemma_scan_string_bounds(gs, s + 1);
                } else if is_digit_g(g) && !(g == single('+') || g == single('-') || g == single(
                    '*',
                ) || g == single('/') || g == single('%') || g == single('|') || g == single('&')
                    || g == single('=') || g == single('!') || g == single('<') || g == single('>')
                    || g == single('.') || g == single('(') || g == single(')') || g == single('{')
                    || g == single('}') || g == single('[') || g == single(']') || g == single(',')
                    || g == single(';') || g == single(':')) {
                    lemma_scan_number_bounds(gs, s + 1, false);
                } else {
                    lemma_scan_word_bounds(gs, s + 1);
                }
            }
        },
    }
}

/// The concatenation of a sequence of texts, in order.
pub open spec fn concat_all(ps: Seq<Seq<char>>) -> Seq<char>
    decreases ps.len(),
{
    if ps.len() == 0 {
        Seq::empty()
    } else {
        ps.first() + concat_all(ps.drop_first())
    }
}

/// Whether lexing from `pos` reaches the end of the input with no fatal error.
pub open spec fn lex_ok(gs: Seq<Seq<char>>, pos: int) -> bool
    decreases gs.len() - pos,
{
    match next_token(gs, pos) {
        LexStep::End(e) => true,
        LexStep::Tok(t, s, e) => if pos < e <= gs.len() {
            lex_ok(gs, e)
        } else {
            false
        },
        LexStep::Fail(k, p) => false,
    }
}

/// The source texts the lexer walks over from `pos`, in order: for each token,
/// the trivia run skipped before it and then the token's own text, and last
/// the trivia that runs to the end of the input.
pub open spec fn lex_pieces(gs: Seq<Seq<char>>, pos: int) -> Seq<Seq<char>>
    decreases gs.len() - pos,
{
    match next_token(gs, pos) {
        LexStep::End(e) => seq![flatten_range(gs, pos, e)],
        LexStep::Tok(t, s, e) => if pos < e <= gs.len() {
            seq![flatten_range(gs, pos, s), flatten_range(gs, s, e)] + lex_pieces(gs, e)
        } else {
            Seq::empty()
        },
        LexStep::Fail(k, p) => Seq::empty(),
    }
}

/// Lossless lexing: when an input lexes to completion, concatenating the
/// source text spanned by every produced token together with every skipped
/// trivia run reconstructs the input's text from `pos` on exactly.
pub proof fn lemma_lossless_lexing(gs: Seq<Seq<char>>, pos: int)
    requires
        0 <= pos <= gs.len(),
        lex_ok(gs, pos),
    ensures
        concat_all(lex_pieces(gs, pos)) == flatten_range(gs, pos, gs.len() as int),
    decreases gs.len() - pos,
{
    lemma_next_token_bounds(gs, pos);
    match next_token(gs, pos) {
        LexStep::End(e) => {
            let ps = lex_pieces(gs, pos);
            assert(ps =~= seq![flatten_range(gs, pos, e)]);
            reveal_with_fuel(concat_all, 2);
            assert(ps.drop_first() =~= Seq::<Seq<char>>::empty());
            assert(concat_all(ps) =~= flatten_range(gs, pos, e) + Seq::<char>::empty());
            assert(concat_all(ps) =~= flatten_range(gs, pos, gs.len() as int));
        },
        LexStep::Tok(t, s, e) => {
            lemma_lossless_lexing(gs, e);
            let ps = lex_pieces(gs, pos);
            let rest = lex_pieces(gs, e);
            assert(ps =~= seq![flatten_range(gs, pos, s), flatten_range(gs, s, e)] + rest);
            reveal_with_fuel(concat_all, 3);
            assert(ps.drop_first() =~= seq![flatten_range(gs, s, e)] + rest);
            assert(ps.drop_first().drop_first() =~= rest);
            lemma_flatten_range_split(gs, pos, s, e);
            lemma_flatten_range_split(gs, pos, e, gs.len() as int);
            assert(concat_all(ps) =~= flatten_range(gs, pos, s) + (flatten_range(gs, s, e)
                + concat_all(rest)));
            assert(concat_all(ps) =~= flatten_range(gs, pos, gs.len() as int));
        },
        LexStep::Fail(k, p) => {},
    }
}

} // verus!
