use vstd::prelude::*;
use crate::error::{Error, ErrorKind};
use crate::unicode::{split_graphemes, string_eq_str, views_of, flatten_range, graphemes_of, lemma_flatten_range_snoc};
use crate::unicode::char_to_string;
use crate::decimal::{dec_str, u64_to_string};

verus! {

/// The mathematical state of a source cursor: the graphemes of the input, and
/// how many of them have been consumed so far.
pub struct StreamModel {
    pub gs: Seq<Seq<char>>,
    pub pos: int,
}

/// Whether a grapheme is the bare newline.
pub open spec fn is_newline_g(g: Seq<char>) -> bool {
    g == seq!['\n']
}

/// The 1-indexed line reached after consuming `pos` graphemes: one more than
/// the number of newline graphemes consumed.
pub open spec fn line_at(gs: Seq<Seq<char>>, pos: int) -> int
    decreases pos,
{
    if pos <= 0 {
        1
    } else if is_newline_g(gs[pos - 1]) {
        line_at(gs, pos - 1) + 1
    } else {
        line_at(gs, pos - 1)
    }
}

/// The 1-indexed column reached after consuming `pos` graphemes: it resets to
/// 1 immediately after a newline grapheme and otherwise advances by one.
pub open spec fn col_at(gs: Seq<Seq<char>>, pos: int) -> int
    decreases pos,
{
    if pos <= 0 {
        1
    } else if is_newline_g(gs[pos - 1]) {
        1
    } else {
        col_at(gs, pos - 1) + 1
    }
}

/// Line and column are 1-indexed and never exceed the consumed count plus one.
pub proof fn lemma_line_col_bounds(gs: Seq<Seq<char>>, pos: int)
    requires
        pos >= 0,
    ensures
        1 <= line_at(gs, pos) <= pos + 1,
        1 <= col_at(gs, pos) <= pos + 1,
    decreases pos,
{
    if pos > 0 {
        lemma_line_col_bounds(gs, pos - 1);
    }
}

/// A Unicode-grapheme-indexed, position-tracking read cursor over the input
/// text.
pub struct InputStream {
    body: Vec<String>,
    pos: usize,
    line: u64,
    col: u64,
}

impl View for InputStream {
    type V = StreamModel;

    closed spec fn view(&self) -> StreamModel {
        StreamModel { gs: views_of(self.body@), pos: self.pos as int }
    }
}

impl InputStream {
    /// The cursor's invariant: the position is inside the input, the grapheme
    /// count is small enough that line and column counters cannot overflow,
    /// every grapheme is nonempty, and the stored line and column agree with
    /// the graphemes consumed so far.
    pub closed spec fn wf(&self) -> bool {
        &&& self.pos <= self.body@.len()
        &&& self.body@.len() <= 0x7fff_ffff_ffff_ffff
        &&& (forall|i: int| 0 <= i < self@.gs.len() ==> (#[trigger] self@.gs[i]).len() >= 1)
        &&& self.line as int == line_at(self@.gs, self@.pos)
        &&& self.col as int == col_at(self@.gs, self@.pos)
    }

    /// What every well-formed cursor guarantees about its model.
    pub proof fn lemma_wf_bounds(&self)
        requires
            self.wf(),
        ensures
            0 <= self@.pos <= self@.gs.len(),
            self@.gs.len() <= 0x7fff_ffff_ffff_ffff,
            forall|i: int| 0 <= i < self@.gs.len() ==> (#[trigger] self@.gs[i]).len() >= 1,
    {
    }

    /// Split an in-memory string into its grapheme clusters and start reading
    /// at its beginning, on line 1, column 1.
    pub fn new_from_string(contents: &str) -> (s: InputStream)
        ensures
            s.wf(),
            s@.gs == graphemes_of(contents@),
            s@.pos == 0,
            flatten_range(s@.gs, 0, s@.gs.len() as int) == contents@,
    {
        let body = split_graphemes(contents);
        InputStream { body, pos: 0, line: 1, col: 1 }
    }

    /// Return the grapheme at the current position and advance past it,
    /// updating the line and column: a newline moves to the next line's first
    /// column, anything else advances the column by one.
    pub fn consume(&mut self) -> (g: String)
        requires
            old(self).wf(),
            old(self)@.pos < old(self)@.gs.len(),
        ensures
            final(self).wf(),
            final(self)@.gs == old(self)@.gs,
            final(self)@.pos == old(self)@.pos + 1,
            g@ == old(self)@.gs[old(self)@.pos],
            is_newline_g(g@) ==> line_at(final(self)@.gs, final(self)@.pos) == line_at(old(self)@.gs, old(self)@.pos) + 1
                && col_at(final(self)@.gs, final(self)@.pos) == 1,
            !is_newline_g(g@) ==> line_at(final(self)@.gs, final(self)@.pos) == line_at(old(self)@.gs, old(self)@.pos)
                && col_at(final(self)@.gs, final(self)@.pos) == col_at(old(self)@.gs, old(self)@.pos) + 1,
    {
        let g = self.body[self.pos].clone();
        proof {
            assert(self@.gs.len() == self.body@.len());
            assert(self.body@.len() == self.body.len());
            lemma_line_col_bounds(self@.gs, self@.pos);
            reveal_strlit("\n");
            assert("\n"@ =~= seq!['\n']);
        }
        self.pos = self.pos + 1;
        let is_nl = string_eq_str(&g, "\n");
        if is_nl {
            self.line = self.line + 1;
            self.col = 1;
        } else {
            self.col = self.col + 1;
        }
        g
    }

    /// Like `consume`, but check the consumed grapheme against the expected
    /// one: a mismatch, or an exhausted input, is a fatal error and leaves the
    /// cursor unmoved.
    pub fn consume_expect(&mut self, expected: &str) -> (r: Result<String, Error>)
        requires
            old(self).wf(),
        ensures
            match r {
                Ok(g) => {
                    &&& old(self)@.pos < old(self)@.gs.len()
                    &&& old(self)@.gs[old(self)@.pos] == expected@
                    &&& g@ == expected@
                    &&& final(self).wf()
                    &&& final(self)@.gs == old(self)@.gs
                    &&& final(self)@.pos == old(self)@.pos + 1
                },
                Err(e) => {
                    &&& *final(self) == *old(self)
                    &&& e.line as int == line_at(old(self)@.gs, old(self)@.pos)
                    &&& e.col as int == col_at(old(self)@.gs, old(self)@.pos)
                    &&& if old(self)@.pos >= old(self)@.gs.len() {
                        e.kind == ErrorKind::UnexpectedEndOfInput
                    } else {
                        e.kind == ErrorKind::UnexpectedGrapheme && old(self)@.gs[old(self)@.pos]
                            != expected@
                    }
                },
            },
    {
        let next = self.peek();
        match next {
            None => Err(Error { kind: ErrorKind::UnexpectedEndOfInput, line: self.line, col: self.col }),
            Some(g) => {
                if string_eq_str(&g, expected) {
                    Ok(self.consume())
                } else {
                    Err(
                        Error {
                            kind: ErrorKind::UnexpectedGrapheme,
                            line: self.line,
                            col: self.col,
                        },
                    )
                }
            },
        }
    }

    /// The grapheme at the current position, or nothing at end of input.
    pub fn peek(&self) -> (r: Option<String>)
        ensures
            match r {
                Some(g) => self@.pos < self@.gs.len() && g@ == self@.gs[self@.pos],
                None => self@.pos >= self@.gs.len(),
            },
    {
        if self.eof() {
            None
        } else {
            Some(self.body[self.pos].clone())
        }
    }

    /// The grapheme just after the current position, or nothing if there is
    /// none.
    pub fn peek_next(&self) -> (r: Option<String>)
        ensures
            match r {
                Some(g) => self@.pos + 1 < self@.gs.len() && g@ == self@.gs[self@.pos + 1],
                None => self@.pos + 1 >= self@.gs.len(),
            },
    {
        let n = self.body.len();
        if self.pos < n && n - self.pos >= 2 {
            Some(self.body[self.pos + 1].clone())
        } else {
            None
        }
    }

    /// Whether the position is at or past the end of the input.
    pub fn eof(&self) -> (b: bool)
        ensures
            b == (self@.pos >= self@.gs.len()),
    {
        self.pos >= self.body.len()
    }

    /// Greedily consume graphemes while the predicate holds of them, and
    /// return their concatenated text.  The run is maximal: if input remains,
    /// the predicate rejected the next grapheme.
    pub fn read_while<F: Fn(&String) -> bool>(&mut self, condition: F) -> (out: String)
        requires
            old(self).wf(),
            forall|g: &String| #[trigger] condition.requires((g,)),
        ensures
            final(self).wf(),
            final(self)@.gs == old(self)@.gs,
            old(self)@.pos <= final(self)@.pos <= final(self)@.gs.len(),
            out@ == flatten_range(final(self)@.gs, old(self)@.pos, final(self)@.pos),
            forall|i: int| old(self)@.pos <= i < final(self)@.pos ==> accepts(condition, #[trigger] final(self)@.gs[i]),
            final(self)@.pos < final(self)@.gs.len() ==> rejects(condition, final(self)@.gs[final(self)@.pos]),
    {
        let mut out = String::new();
        proof {
            self.lemma_wf_bounds();
        }
        loop
            invariant
                self.wf(),
                self@.gs == old(self)@.gs,
                old(self)@.pos <= self@.pos <= self@.gs.len(),
                out@ == flatten_range(self@.gs, old(self)@.pos, self@.pos),
                forall|i: int| old(self)@.pos <= i < self@.pos ==> accepts(condition, #[trigger] self@.gs[i]),
                forall|g: &String| #[trigger] condition.requires((g,)),
            ensures
                self@.pos < self@.gs.len() ==> rejects(condition, self@.gs[self@.pos]),
            decreases self@.gs.len() - self@.pos,
        {
            if self.eof() {
                break;
            }
            let g_opt = self.peek();
            let g = g_opt.unwrap();
            let keep = condition(&g);
            if !keep {
                proof {
                    assert(condition.ensures((&g,), false));
                }
                break;
            }
            let c = self.consume();
            out.append(c.as_str());
            proof {
                lemma_flatten_range_snoc(self@.gs, old(self)@.pos, self@.pos - 1);
                assert(condition.ensures((&g,), true));
            }
        }
        out
    }

    /// Render the current position as `line:column`.
    pub fn loc(&self) -> (r: String)
        requires
            self.wf(),
        ensures
            r@ == dec_str(line_at(self@.gs, self@.pos)) + seq![':'] + dec_str(
                col_at(self@.gs, self@.pos),
            ),
    {
        let mut s = u64_to_string(self.line);
        let colon = char_to_string(':');
        s.append(colon.as_str());
        let c = u64_to_string(self.col);
        s.append(c.as_str());
        s
    }

    /// The current line and column, 1-indexed.
    pub fn position(&self) -> (r: (u64, u64))
        requires
            self.wf(),
        ensures
            r.0 as int == line_at(self@.gs, self@.pos),
            r.1 as int == col_at(self@.gs, self@.pos),
    {
        (self.line, self.col)
    }
}

/// Whether the predicate is known to accept a grapheme with this text.
pub open spec fn accepts<F: Fn(&String) -> bool>(f: F, g: Seq<char>) -> bool {
    exists|x: &String| x@ == g && f.ensures((x,), true)
}

/// Whether the predicate is known to reject a grapheme with this text.
pub open spec fn rejects<F: Fn(&String) -> bool>(f: F, g: Seq<char>) -> bool {
    exists|x: &String| x@ == g && f.ensures((x,), false)
}

} // verus!
