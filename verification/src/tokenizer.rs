use vstd::prelude::*;
use vstd::string::StrSliceExecFns;
use crate::error::{Error, ErrorKind};
use crate::input_stream::{InputStream, line_at, col_at};
use crate::token::{Token, TokenS, Symbol, view_opt, token_eq, keyword_lookup};
use crate::unicode::{char_is_whitespace, char_is_alphabetic, char_is_alphanumeric,
    lemma_flatten_range_snoc, flatten_range};
use crate::decimal::{is_digit_char, digit_val, digits_val, all_digits, dec_str,
    lemma_digits_val_snoc};
use crate::lexer_spec::{single, is_ws_g, is_digit_g, is_word_start_g, is_word_g, is_sym_start_g, scan_ws,
    scan_to_newline, scan_block_comment, scan_string, scan_number, scan_word, skip_trivia,
    num_run_ok, LexStep, sym2, next_token, lemma_next_token_bounds};

verus! {

/// The mathematical state of a lexer: the graphemes of the input, the cursor
/// position, and the one buffered token of lookahead.
pub struct TkModel {
    pub gs: Seq<Seq<char>>,
    pub pos: int,
    pub cur: Option<TokenS>,
}

/// How much input is left in front of a lexer; every taken token strictly
/// shrinks it.
pub open spec fn tk_meas(m: TkModel) -> int {
    2 * (m.gs.len() - m.pos) + (if m.cur is Some {
        1int
    } else {
        0int
    })
}

/// The error of the given kind reported at grapheme position `p`.
pub open spec fn err_at(gs: Seq<Seq<char>>, p: int, kind: ErrorKind) -> Error {
    Error { kind, line: line_at(gs, p) as u64, col: col_at(gs, p) as u64 }
}

/// The lexer state `m` is the result of refilling the lookahead buffer from
/// position `from`.
pub open spec fn advanced(gs: Seq<Seq<char>>, from: int, m: TkModel) -> bool {
    m.gs == gs && match next_token(gs, from) {
        LexStep::End(e) => m.cur is None && m.pos == e,
        LexStep::Tok(t, s, e) => m.cur == Some(t) && m.pos == e,
        LexStep::Fail(k, p) => false,
    }
}

/// Lexing from position `from` fails with exactly this error.
pub open spec fn lex_failed(gs: Seq<Seq<char>>, from: int, err: Error) -> bool {
    match next_token(gs, from) {
        LexStep::Fail(k, p) => err == err_at(gs, p, k),
        _ => false,
    }
}

/// The first character of a nonempty grapheme.
fn first_char(g: &String) -> (c: char)
    requires
        g@.len() >= 1,
    ensures
        c == g@[0],
{
    g.as_str().get_char(0)
}

/// Whether a grapheme is exactly the one-character string holding `c`.
fn is_single(g: &String, c: char) -> (b: bool)
    ensures
        b == (g@ == single(c)),
{
    let n = g.as_str().unicode_len();
    if n != 1 {
        proof {
            assert(g@ != single(c));
        }
        false
    } else {
        let c0 = g.as_str().get_char(0);
        proof {
            if c0 == c {
                assert(g@ =~= single(c));
            }
        }
        c0 == c
    }
}

/// Whether a character is a decimal ASCII digit.
fn char_is_digit(c: char) -> (b: bool)
    ensures
        b == is_digit_char(c),
{
    let u = c as u32;
    48 <= u && u <= 57
}

/// The value of a grapheme that is exactly one decimal digit, if it is one.
fn digit_grapheme_val(g: &String) -> (r: Option<u64>)
    requires
        g@.len() >= 1,
    ensures
        match r {
            Some(d) => g@.len() == 1 && is_digit_char(g@[0]) && d == digit_val(g@[0]) && d < 10,
            None => !(g@.len() == 1 && is_digit_char(g@[0])),
        },
{
    let n = g.as_str().unicode_len();
    let c = g.as_str().get_char(0);
    let u = c as u32;
    if n == 1 && 48 <= u && u <= 57 {
        Some((u - 48) as u64)
    } else {
        None
    }
}

/// The lexer: wraps the source cursor and exposes exactly one token of
/// buffered lookahead.
pub struct Tokenizer {
    current: Option<Token>,
    stream: InputStream,
}

impl View for Tokenizer {
    type V = TkModel;

    closed spec fn view(&self) -> TkModel {
        TkModel { gs: self.stream@.gs, pos: self.stream@.pos, cur: view_opt(self.current) }
    }
}

impl Tokenizer {
    /// The wrapped cursor is well formed.
    pub closed spec fn stream_ok(&self) -> bool {
        self.stream.wf()
    }

    /// The lexer's invariant: the cursor is well formed, and an empty
    /// lookahead buffer means the whole input has been consumed.
    pub closed spec fn wf(&self) -> bool {
        &&& self.stream.wf()
        &&& (self.current is None ==> self.stream@.pos == self.stream@.gs.len())
    }

    /// What every well-formed lexer guarantees about its model.
    pub proof fn lemma_wf_bounds(&self)
        requires
            self.wf(),
        ensures
            self.stream_ok(),
            0 <= self@.pos <= self@.gs.len(),
            self@.gs.len() <= 0x7fff_ffff_ffff_ffff,
            self@.cur is None ==> self@.pos == self@.gs.len(),
            tk_meas(self@) >= 0,
    {
        self.stream.lemma_wf_bounds();
    }

    /// The fatal error of the given kind at the current position.
    pub fn error_here(&self, kind: ErrorKind) -> (e: Error)
        requires
            self.stream_ok(),
        ensures
            e == err_at(self@.gs, self@.pos, kind),
    {
        let lc = self.stream.position();
        Error { kind, line: lc.0, col: lc.1 }
    }

    /// Wrap a cursor and prime the first token of lookahead.
    pub fn new(stream: InputStream) -> (r: Result<Tokenizer, Error>)
        requires
            stream.wf(),
        ensures
            match r {
                Ok(tk) => tk.wf() && advanced(stream@.gs, stream@.pos, tk@),
                Err(e) => lex_failed(stream@.gs, stream@.pos, e),
            },
    {
        let mut tok = Tokenizer { current: None, stream };
        match tok.advance() {
            Ok(()) => Ok(tok),
            Err(e) => Err(e),
        }
    }

    /// Render the current position as `line:column`.
    pub fn loc(&self) -> (r: String)
        requires
            self.wf(),
        ensures
            r@ == dec_str(line_at(self@.gs, self@.pos)) + seq![':'] + dec_str(
                col_at(self@.gs, self@.pos),
            ),
    {
        self.stream.loc()
    }

    /// The buffered token, without consuming it.
    pub fn peek(&self) -> (r: &Option<Token>)
        ensures
            view_opt(*r) == self@.cur,
    {
        &self.current
    }

    /// Take the buffered token and refill the buffer with the next one.
    pub fn consume(&mut self) -> (r: Result<Option<Token>, Error>)
        requires
            old(self).wf(),
        ensures
            match r {
                Ok(t) => {
                    &&& final(self).wf()
                    &&& view_opt(t) == old(self)@.cur
                    &&& final(self)@.gs == old(self)@.gs
                    &&& match old(self)@.cur {
                        Some(_) => advanced(old(self)@.gs, old(self)@.pos, final(self)@) && tk_meas(
                            final(self)@,
                        ) < tk_meas(old(self)@),
                        None => final(self)@ == old(self)@,
                    }
                },
                Err(e) => old(self)@.cur is Some && lex_failed(
                    old(self)@.gs,
                    old(self)@.pos,
                    e,
                ),
            },
    {
        proof {
            self.lemma_wf_bounds();
        }
        let current = self.current.take();
        if current.is_some() {
            match self.advance() {
                Ok(()) => {
                    proof {
                        lemma_next_token_bounds(old(self)@.gs, old(self)@.pos);
                    }
                    Ok(current)
                },
                Err(e) => Err(e),
            }
        } else {
            proof {
                assert(old(self)@.pos == old(self)@.gs.len());
            }
            Ok(current)
        }
    }

    /// Check that the buffered token equals the expected one: a mismatch is an
    /// unexpected-token error, an exhausted stream an unexpected-end error.
    pub fn expect(&self, expected: &Token) -> (r: Result<&Option<Token>, Error>)
        requires
            self.wf(),
        ensures
            match r {
                Ok(o) => view_opt(*o) == self@.cur && self@.cur == Some(expected@),
                Err(e) => match self@.cur {
                    Some(t) => t != expected@ && e == err_at(
                        self@.gs,
                        self@.pos,
                        ErrorKind::UnexpectedToken,
                    ),
                    None => e == err_at(self@.gs, self@.pos, ErrorKind::UnexpectedEndOfInput),
                },
            },
    {
        proof {
            self.lemma_wf_bounds();
        }
        match &self.current {
            Some(t) => {
                if token_eq(t, expected) {
                    Ok(&self.current)
                } else {
                    Err(self.error_here(ErrorKind::UnexpectedToken))
                }
            },
            None => Err(self.error_here(ErrorKind::UnexpectedEndOfInput)),
        }
    }

    /// Like `consume`, but fail first if the buffered token is not the
    /// expected one.
    pub fn consume_expect(&mut self, expected: &Token) -> (r: Result<Option<Token>, Error>)
        requires
            old(self).wf(),
        ensures
            match r {
                Ok(t) => {
                    &&& old(self)@.cur == Some(expected@)
                    &&& view_opt(t) == old(self)@.cur
                    &&& final(self).wf()
                    &&& final(self)@.gs == old(self)@.gs
                    &&& advanced(old(self)@.gs, old(self)@.pos, final(self)@)
                    &&& tk_meas(final(self)@) < tk_meas(old(self)@)
                },
                Err(e) => match old(self)@.cur {
                    None => e == err_at(old(self)@.gs, old(self)@.pos, ErrorKind::UnexpectedEndOfInput)
                        && *final(self) == *old(self),
                    Some(t) => (t != expected@ && e == err_at(
                        old(self)@.gs,
                        old(self)@.pos,
                        ErrorKind::UnexpectedToken,
                    ) && *final(self) == *old(self)) || (t == expected@ && lex_failed(
                        old(self)@.gs,
                        old(self)@.pos,
                        e,
                    )),
                },
            },
    {
        match self.expect(expected) {
            Err(e) => {
                return Err(e);
            },
            Ok(_) => {},
        }
        self.consume()
    }

    /// Refill the lookahead buffer: skip trivia, then produce one token from
    /// the cursor, or report the stream's end or the first lexical error.
    #[verifier::rlimit(50)]
    fn advance(&mut self) -> (r: Result<(), Error>)
        requires
            old(self).stream.wf(),
        ensures
            match r {
                Ok(()) => final(self).wf() && advanced(
                    old(self)@.gs,
                    old(self)@.pos,
                    final(self)@,
                ),
                Err(e) => lex_failed(old(self)@.gs, old(self)@.pos, e),
            },
    {
        let ghost gs = self.stream@.gs;
        let ghost pos0 = self.stream@.pos;
        proof {
            reveal(next_token);
            self.stream.lemma_wf_bounds();
        }
        // Skip trivia: whitespace runs and comments.
        loop
            invariant
                self.stream.wf(),
                self.stream@.gs == gs,
                gs == old(self)@.gs && pos0 == old(self)@.pos,
                0 <= pos0 <= self.stream@.pos <= gs.len(),
                skip_trivia(gs, pos0) == skip_trivia(gs, self.stream@.pos),
            ensures
                self.stream.wf(),
                self.stream@.gs == gs,
                0 <= pos0 <= self.stream@.pos <= gs.len(),
                skip_trivia(gs, pos0) == Ok::<int, int>(self.stream@.pos),
            decreases gs.len() - self.stream@.pos,
        {
            let c_opt = self.stream.peek();
            let c = match c_opt {
                None => { break; },
                Some(c) => c,
            };
            if is_single(&c, '/') {
                let m_opt = self.stream.peek_next();
                let mode: u8 = match m_opt {
                    Some(m) => {
                        if is_single(&m, '*') {
                            1
                        } else if is_single(&m, '/') {
                            2
                        } else {
                            0
                        }
                    },
                    None => 0,
                };
                if mode == 1 {
                    // Block comment: scan for the closing `*/` pair.
                    let ghost bp = self.stream@.pos;
                    loop
                        invariant_except_break
                            scan_block_comment(gs, bp) == scan_block_comment(
                                gs,
                                self.stream@.pos,
                            ),
                        invariant
                            self.stream.wf(),
                            self.stream@.gs == gs,
                            gs == old(self)@.gs && pos0 == old(self)@.pos,
                            0 <= bp <= self.stream@.pos <= gs.len(),
                            skip_trivia(gs, pos0) == skip_trivia(gs, bp),
                            bp + 1 < gs.len() && gs[bp] == single('/') && gs[bp + 1] == single(
                                '*',
                            ),
                        ensures
                            self.stream.wf(),
                            self.stream@.gs == gs,
                            0 <= bp < self.stream@.pos <= gs.len(),
                            scan_block_comment(gs, bp) == Ok::<int, int>(self.stream@.pos),
                            skip_trivia(gs, pos0) == skip_trivia(gs, bp),
                            bp + 1 < gs.len() && gs[bp] == single('/') && gs[bp + 1] == single(
                                '*',
                            ),
                        decreases gs.len() - self.stream@.pos,
                    {
                        let n_opt = self.stream.peek();
                        let m2_opt = self.stream.peek_next();
                        let pair = match (&n_opt, &m2_opt) {
                            (Some(n), Some(m)) => is_single(n, '*') && is_single(m, '/'),
                            _ => false,
                        };
                        if pair {
                            self.stream.consume();
                            self.stream.consume();
                            break;
                        }
                        if self.stream.eof() {
                            proof {
                                reveal(next_token);
                                let e = gs.len() as int;
                                assert(scan_block_comment(gs, self.stream@.pos) == Err::<
                                    int,
                                    int,
                                >(e));
                                assert(skip_trivia(gs, bp) == Err::<int, int>(e));
                                assert(next_token(gs, pos0) == LexStep::Fail(
                                    ErrorKind::UnterminatedLiteral,
                                    e,
                                ));
                            }
                            return Err(self.error_here(ErrorKind::UnterminatedLiteral));
                        }
                        self.stream.consume();
                    }
                } else if mode == 2 {
                    // Line comment: consume to, and including, the newline.
                    let ghost lp = self.stream@.pos;
                    loop
                        invariant
                            self.stream.wf(),
                            self.stream@.gs == gs,
                            gs == old(self)@.gs && pos0 == old(self)@.pos,
                            0 <= lp <= self.stream@.pos <= gs.len(),
                            scan_to_newline(gs, lp) == scan_to_newline(gs, self.stream@.pos),
                            skip_trivia(gs, pos0) == skip_trivia(gs, lp),
                            lp + 1 < gs.len() && gs[lp] == single('/') && gs[lp + 1] == single(
                                '/',
                            ),
                        ensures
                            self.stream.wf(),
                            self.stream@.gs == gs,
                            0 <= lp <= self.stream@.pos < gs.len(),
                            scan_to_newline(gs, lp) == self.stream@.pos,
                            gs[self.stream@.pos] == single('\n'),
                            skip_trivia(gs, pos0) == skip_trivia(gs, lp),
                            lp + 1 < gs.len() && gs[lp] == single('/') && gs[lp + 1] == single(
                                '/',
                            ),
                        decreases gs.len() - self.stream@.pos,
                    {
                        if self.stream.eof() {
                            proof {
                                reveal(next_token);
                                let e = gs.len() as int;
                                assert(single('/')[0] == '/');
                                assert(gs[lp + 1] != single('*'));
                                assert(scan_to_newline(gs, lp) == e);
                                assert(skip_trivia(gs, lp) == Err::<int, int>(e));
                                assert(next_token(gs, pos0) == LexStep::Fail(
                                    ErrorKind::UnterminatedLiteral,
                                    e,
                                ));
                            }
                            return Err(self.error_here(ErrorKind::UnterminatedLiteral));
                        }
                        let g_opt = self.stream.peek();
                        let g = g_opt.unwrap();
                        if is_single(&g, '\n') {
                            break;
                        }
                        self.stream.consume();
                    }
                    self.stream.consume();
                } else {
                    break;
                }
            } else {
                proof {
                    self.stream.lemma_wf_bounds();
                }
                let c0 = first_char(&c);
                if char_is_whitespace(c0) {
                    // Whitespace run.
                    self.stream.consume();
                    let ghost wp = self.stream@.pos;
                    loop
                        invariant
                            self.stream.wf(),
                            self.stream@.gs == gs,
                            gs == old(self)@.gs && pos0 == old(self)@.pos,
                            0 <= wp <= self.stream@.pos <= gs.len(),
                            scan_ws(gs, wp) == scan_ws(gs, self.stream@.pos),
                        ensures
                            self.stream.wf(),
                            self.stream@.gs == gs,
                            0 <= wp <= self.stream@.pos <= gs.len(),
                            scan_ws(gs, wp) == self.stream@.pos,
                        decreases gs.len() - self.stream@.pos,
                    {
                        let g_opt = self.stream.peek();
                        let g = match g_opt {
                            None => { break; },
                            Some(g) => g,
                        };
                        proof {
                            self.stream.lemma_wf_bounds();
                        }
                        let g0 = first_char(&g);
                        if !char_is_whitespace(g0) {
                            break;
                        }
                        self.stream.consume();
                    }
                } else {
                    break;
                }
            }
        }
        // The cursor now stands at the first grapheme of a token, or at the end.
        if self.stream.eof() {
            self.current = None;
            return Ok(());
        }
        proof {
            self.stream.lemma_wf_bounds();
        }
        let ghost s = self.stream@.pos;
        let lc = self.stream.position();
        let t = self.stream.consume();
        if is_single(&t, '"') {
            // String literal: everything up to the closing quote, unprocessed.
            let mut val = String::new();
            proof {
                assert(val@ =~= flatten_range(gs, s + 1, s + 1));
            }
            loop
                invariant
                    self.stream.wf(),
                    self.stream@.gs == gs,
                    gs == old(self)@.gs && pos0 == old(self)@.pos,
                    0 <= s < gs.len(),
                    s + 1 <= self.stream@.pos <= gs.len(),
                    skip_trivia(gs, pos0) == Ok::<int, int>(s),
                    gs[s] == single('"'),
                    scan_string(gs, s + 1) == scan_string(gs, self.stream@.pos),
                    val@ == flatten_range(gs, s + 1, self.stream@.pos),
                ensures
                    self.stream.wf(),
                    self.stream@.gs == gs,
                    0 <= s < gs.len(),
                    s + 1 <= self.stream@.pos < gs.len(),
                    skip_trivia(gs, pos0) == Ok::<int, int>(s),
                    gs[s] == single('"'),
                    scan_string(gs, s + 1) == self.stream@.pos,
                    gs[self.stream@.pos] == single('"'),
                    val@ == flatten_range(gs, s + 1, self.stream@.pos),
                decreases gs.len() - self.stream@.pos,
            {
                if self.stream.eof() {
                    proof {
                        reveal(next_token);
                        let e = gs.len() as int;
                        assert(scan_string(gs, s + 1) == e);
                        assert(next_token(gs, pos0) == LexStep::Fail(
                            ErrorKind::UnterminatedLiteral,
                            e,
                        ));
                    }
                    return Err(self.error_here(ErrorKind::UnterminatedLiteral));
                }
                let g_opt = self.stream.peek();
                let g = g_opt.unwrap();
                if is_single(&g, '"') {
                    break;
                }
                let g2 = self.stream.consume();
                val.append(g2.as_str());
                proof {
                    lemma_flatten_range_snoc(gs, s + 1, self.stream@.pos - 1);
                }
            }
            self.stream.consume();
            self.current = Some(Token::Str(val));
            return Ok(());
        } else if is_single(&t, '+') {
            let sym = sym2_step(&mut self.stream, '=', Symbol::PlusEqual, Symbol::Plus);
            self.current = Some(Token::Sym(sym));
            return Ok(());
        } else if is_single(&t, '-') {
            let sym = sym2_step(&mut self.stream, '=', Symbol::MinusEqual, Symbol::Minus);
            self.current = Some(Token::Sym(sym));
            return Ok(());
        } else if is_single(&t, '*') {
            let sym = sym2_step(&mut self.stream, '=', Symbol::StarEqual, Symbol::Star);
            self.current = Some(Token::Sym(sym));
            return Ok(());
        } else if is_single(&t, '/') {
            let sym = sym2_step(&mut self.stream, '=', Symbol::SlashEqual, Symbol::Slash);
            self.current = Some(Token::Sym(sym));
            return Ok(());
        } else if is_single(&t, '%') {
            let sym = sym2_step(&mut self.stream, '=', Symbol::PercentEqual, Symbol::Percent);
            self.current = Some(Token::Sym(sym));
            return Ok(());
        } else if is_single(&t, '|') {
            let sym = sym2_step(&mut self.stream, '|', Symbol::BarBar, Symbol::Bar);
            self.current = Some(Token::Sym(sym));
            return Ok(());
        } else if is_single(&t, '&') {
            let sym = sym2_step(&mut self.stream, '&', Symbol::AndAnd, Symbol::And);
            self.current = Some(Token::Sym(sym));
            return Ok(());
        } else if is_single(&t, '=') {
            let sym = sym2_step(&mut self.stream, '=', Symbol::EqualEqual, Symbol::Equal);
            self.current = Some(Token::Sym(sym));
            return Ok(());
        } else if is_single(&t, '!') {
            let sym = sym2_step(&mut self.stream, '=', Symbol::BangEqual, Symbol::Bang);
            self.current = Some(Token::Sym(sym));
            return Ok(());
        } else if is_single(&t, '<') {
            let sym = sym2_step(&mut self.stream, '=', Symbol::LessEqual, Symbol::Less);
            self.current = Some(Token::Sym(sym));
            return Ok(());
        } else if is_single(&t, '>') {
            let sym = sym2_step(&mut self.stream, '=', Symbol::GreaterEqual, Symbol::Greater);
            self.current = Some(Token::Sym(sym));
            return Ok(());
        } else if is_single(&t, '.') {
            self.current = Some(Token::Sym(Symbol::Dot));
            return Ok(());
        } else if is_single(&t, '(') {
            self.current = Some(Token::Sym(Symbol::LeftParen));
            return Ok(());
        } else if is_single(&t, ')') {
            self.current = Some(Token::Sym(Symbol::RightParen));
            return Ok(());
        } else if is_single(&t, '{') {
            self.current = Some(Token::Sym(Symbol::LeftBrace));
            return Ok(());
        } else if is_single(&t, '}') {
            self.current = Some(Token::Sym(Symbol::RightBrace));
            return Ok(());
        } else if is_single(&t, '[') {
            self.current = Some(Token::Sym(Symbol::LeftBracket));
            return Ok(());
        } else if is_single(&t, ']') {
            self.current = Some(Token::Sym(Symbol::RightBracket));
            return Ok(());
        } else if is_single(&t, ',') {
            self.current = Some(Token::Sym(Symbol::Comma));
            return Ok(());
        } else if is_single(&t, ';') {
            self.current = Some(Token::Sym(Symbol::Semicolon));
            return Ok(());
        } else if is_single(&t, ':') {
            self.current = Some(Token::Sym(Symbol::Colon));
            return Ok(());
        }
        proof {
            assert(!is_sym_start_g(gs[s]));
        }
        let c0 = first_char(&t);
        if char_is_digit(c0) {
            // Numeric run: digits and at most one dot.
            let d0 = digit_grapheme_val(&t);
            let mut clean: bool = d0.is_some();
            let mut val: u64 = 0;
            match d0 {
                Some(d) => {
                    val = d;
                },
                None => {},
            }
            let mut has_dec: bool = false;
            let mut text = String::new();
            text.append(t.as_str());
            proof {
                assert(Seq::<char>::empty() + gs[s] =~= gs[s]);
                assert(flatten_range(gs, s, s) =~= Seq::<char>::empty());
                lemma_flatten_range_snoc(gs, s, s);
                assert(text@ == flatten_range(gs, s, s + 1));
                if clean {
                    assert(gs[s] =~= seq![gs[s][0]]);
                    assert(text@.drop_last() =~= Seq::<char>::empty());
                    assert(digits_val(Seq::<char>::empty()) == 0);
                    assert(digits_val(text@) == digit_val(gs[s][0]));
                    assert(all_digits(text@));
                }
            }
            loop
                invariant
                    self.stream.wf(),
                    self.stream@.gs == gs,
                    gs == old(self)@.gs && pos0 == old(self)@.pos,
                    0 <= s < gs.len(),
                    s + 1 <= self.stream@.pos <= gs.len(),
                    skip_trivia(gs, pos0) == Ok::<int, int>(s),
                    !is_sym_start_g(gs[s]),
                    is_digit_g(gs[s]),
                    scan_number(gs, s + 1, false) == scan_number(gs, self.stream@.pos, has_dec),
                    text@ == flatten_range(gs, s, self.stream@.pos),
                    clean == num_run_ok(gs, s, self.stream@.pos),
                    clean && !has_dec ==> all_digits(text@),
                    clean && !has_dec ==> ((digits_val(text@) <= 0x8000_0000 && val == digits_val(
                        text@,
                    )) || (digits_val(text@) > 0x8000_0000 && val > 0x8000_0000)),
                    val <= 0x5_0000_0009,
                ensures
                    self.stream.wf(),
                    self.stream@.gs == gs,
                    0 <= s < gs.len(),
                    s + 1 <= self.stream@.pos <= gs.len(),
                    skip_trivia(gs, pos0) == Ok::<int, int>(s),
                    !is_sym_start_g(gs[s]),
                    is_digit_g(gs[s]),
                    scan_number(gs, s + 1, false) == Ok::<(int, bool), int>((self.stream@.pos, has_dec)),
                    text@ == flatten_range(gs, s, self.stream@.pos),
                    clean == num_run_ok(gs, s, self.stream@.pos),
                    clean && !has_dec ==> all_digits(text@),
                    clean && !has_dec ==> ((digits_val(text@) <= 0x8000_0000 && val == digits_val(
                        text@,
                    )) || (digits_val(text@) > 0x8000_0000 && val > 0x8000_0000)),
                decreases gs.len() - self.stream@.pos,
            {
                let g_opt = self.stream.peek();
                let g = match g_opt {
                    None => { break; },
                    Some(g) => g,
                };
                proof {
                    self.stream.lemma_wf_bounds();
                }
                if is_single(&g, '.') {
                    if has_dec {
                        proof {
                            reveal(next_token);
                            let p = self.stream@.pos;
                            assert(scan_number(gs, p, true) == Err::<(int, bool), int>(p));
                            assert(next_token(gs, pos0) == LexStep::Fail(
                                ErrorKind::MalformedNumber,
                                p,
                            ));
                        }
                        return Err(self.error_here(ErrorKind::MalformedNumber));
                    }
                    has_dec = true;
                    let g2 = self.stream.consume();
                    text.append(g2.as_str());
                    proof {
                        lemma_flatten_range_snoc(gs, s, self.stream@.pos - 1);
                    }
                } else {
                    let g0 = first_char(&g);
                    if char_is_digit(g0) {
                        let ghost text_old = text@;
                        let ghost p_old = self.stream@.pos;
                        let dv = digit_grapheme_val(&g);
                        match dv {
                            Some(d) => {
                                if val <= 0x8000_0000 {
                                    val = val * 10 + d;
                                }
                            },
                            None => {
                                clean = false;
                            },
                        }
                        let g2 = self.stream.consume();
                        text.append(g2.as_str());
                        proof {
                            lemma_flatten_range_snoc(gs, s, p_old);
                            assert(text@ == text_old + gs[p_old]);
                            if let Some(d) = dv {
                                assert(gs[p_old] =~= seq![gs[p_old][0]]);
                                lemma_digits_val_snoc(text_old, gs[p_old][0 as int]);
                                assert(all_digits(text_old) ==> all_digits(text@));
                            } else {
                                assert(!num_run_ok(gs, s, self.stream@.pos));
                            }
                        }
                    } else {
                        break;
                    }
                }
            }
            if !clean {
                return Err(self.error_here(ErrorKind::MalformedNumber));
            }
            if has_dec {
                self.current = Some(Token::Double(text));
                return Ok(());
            }
            if val > 2147483647 {
                return Err(self.error_here(ErrorKind::MalformedNumber));
            }
            let n: i32 = val as i32;
            self.current = Some(Token::Int(n));
            return Ok(());
        } else if char_is_alphabetic(c0) || is_single(&t, '_') {
            // Word: keyword or identifier.
            let mut word = String::new();
            word.append(t.as_str());
            proof {
                assert(Seq::<char>::empty() + gs[s] =~= gs[s]);
                assert(flatten_range(gs, s, s) =~= Seq::<char>::empty());
                lemma_flatten_range_snoc(gs, s, s);
            }
            loop
                invariant
                    self.stream.wf(),
                    self.stream@.gs == gs,
                    gs == old(self)@.gs && pos0 == old(self)@.pos,
                    0 <= s < gs.len(),
                    s + 1 <= self.stream@.pos <= gs.len(),
                    skip_trivia(gs, pos0) == Ok::<int, int>(s),
                    !is_sym_start_g(gs[s]),
                    !is_digit_g(gs[s]),
                    is_word_start_g(gs[s]),
                    scan_word(gs, s + 1) == scan_word(gs, self.stream@.pos),
                    word@ == flatten_range(gs, s, self.stream@.pos),
                ensures
                    self.stream.wf(),
                    self.stream@.gs == gs,
                    0 <= s < gs.len(),
                    s + 1 <= self.stream@.pos <= gs.len(),
                    skip_trivia(gs, pos0) == Ok::<int, int>(s),
                    !is_sym_start_g(gs[s]),
                    !is_digit_g(gs[s]),
                    is_word_start_g(gs[s]),
                    scan_word(gs, s + 1) == self.stream@.pos,
                    word@ == flatten_range(gs, s, self.stream@.pos),
                decreases gs.len() - self.stream@.pos,
            {
                let g_opt = self.stream.peek();
                let g = match g_opt {
                    None => { break; },
                    Some(g) => g,
                };
                proof {
                    self.stream.lemma_wf_bounds();
                }
                let g0 = first_char(&g);
                let cont = if char_is_alphanumeric(g0) {
                    true
                } else {
                    is_single(&g, '_')
                };
                if !cont {
                    break;
                }
                let g2 = self.stream.consume();
                word.append(g2.as_str());
                proof {
                    lemma_flatten_range_snoc(gs, s, self.stream@.pos - 1);
                }
            }
            let kw = keyword_lookup(&word);
            match kw {
                Some(k) => {
                    self.current = Some(Token::Kw(k));
                },
                None => {
                    self.current = Some(Token::Id(word));
                },
            }
            return Ok(());
        } else {
            proof {
                assert(!is_word_start_g(gs[s]));
                assert(!is_digit_g(gs[s]));
            }
            return Err(Error { kind: ErrorKind::UnexpectedGrapheme, line: lc.0, col: lc.1 });
        }
    }
}

/// One grapheme of symbol lookahead: consume the follow-up grapheme and give
/// the compound symbol if it matches, else leave it and give the bare one.
fn sym2_step(stream: &mut InputStream, follow: char, two: Symbol, one: Symbol) -> (sym: Symbol)
    requires
        old(stream).wf(),
    ensures
        final(stream).wf(),
        final(stream)@.gs == old(stream)@.gs,
        ({
            let gs = old(stream)@.gs;
            let p = old(stream)@.pos;
            if p < gs.len() && gs[p] == single(follow) {
                sym == two && final(stream)@.pos == p + 1
            } else {
                sym == one && final(stream)@.pos == p
            }
        }),
{
    let g_opt = stream.peek();
    match g_opt {
        Some(g) => {
            if is_single(&g, follow) {
                stream.consume();
                two
            } else {
                one
            }
        },
        None => one,
    }
}

} // verus!
