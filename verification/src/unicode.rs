use vstd::prelude::*;
use unicode_segmentation::UnicodeSegmentation;

verus! {

/// The extended grapheme clusters of a string, in order.  This is the UAX #29
/// segmentation; it is a function of the characters alone, and its exact
/// statement is the Unicode segmentation algorithm, so it is left abstract.
pub uninterp spec fn graphemes_of(s: Seq<char>) -> Seq<Seq<char>>;

/// Whether a character has the Unicode `White_Space` property.
pub uninterp spec fn is_whitespace_char(c: char) -> bool;

/// Whether a character is Unicode alphabetic.
pub uninterp spec fn is_alphabetic_char(c: char) -> bool;

/// Whether a character is Unicode alphanumeric.
pub uninterp spec fn is_alphanumeric_char(c: char) -> bool;

/// The views of a sequence of owned strings.
pub open spec fn views_of(v: Seq<String>) -> Seq<Seq<char>> {
    v.map_values(|g: String| g@)
}

/// The characters of the grapheme range `[from, to)` of `gs`, concatenated.
pub open spec fn flatten_range(gs: Seq<Seq<char>>, from: int, to: int) -> Seq<char>
    decreases to - from,
{
    if from >= to {
        Seq::empty()
    } else {
        gs[from] + flatten_range(gs, from + 1, to)
    }
}

/// Relies on unicode_segmentation's `str::graphemes(true)`: it yields the
/// extended grapheme clusters of the string, consecutive nonempty substrings
/// whose concatenation is exactly the original string, so there are at most as
/// many of them as the slice has bytes (and a slice holds at most isize::MAX
/// bytes).
#[verifier::external_body]
pub(crate) fn split_graphemes(s: &str) -> (r: Vec<String>)
    ensures
        views_of(r@) == graphemes_of(s@),
        flatten_range(views_of(r@), 0, r@.len() as int) == s@,
        forall|i: int| 0 <= i < r@.len() ==> r@[i]@.len() >= 1,
        r@.len() <= 0x7fff_ffff_ffff_ffff,
{
    s.graphemes(true).map(|g| g.to_string()).collect()
}

/// Relies on char::is_whitespace: the `White_Space` property depends on the
/// character alone.
#[verifier::external_body]
pub(crate) fn char_is_whitespace(c: char) -> (r: bool)
    ensures
        r == is_whitespace_char(c),
{
    c.is_whitespace()
}

/// Relies on char::is_alphabetic: the `Alphabetic` property depends on the
/// character alone.
#[verifier::external_body]
pub(crate) fn char_is_alphabetic(c: char) -> (r: bool)
    ensures
        r == is_alphabetic_char(c),
{
    c.is_alphabetic()
}

/// Relies on char::is_alphanumeric: the property depends on the character
/// alone.
#[verifier::external_body]
pub(crate) fn char_is_alphanumeric(c: char) -> (r: bool)
    ensures
        r == is_alphanumeric_char(c),
{
    c.is_alphanumeric()
}

/// Relies on char::to_string: the result is a string holding exactly this one
/// character.
#[verifier::external_body]
pub(crate) fn char_to_string(c: char) -> (r: String)
    ensures
        r@ == seq![c],
{
    c.to_string()
}

/// Compare an owned string against a borrowed one.
pub(crate) fn string_eq_str(g: &String, lit: &str) -> (b: bool)
    ensures
        b == (g@ == lit@),
{
    let o: String = lit.to_owned();
    *g == o
}

/// The characters of adjacent grapheme ranges concatenate.
pub proof fn lemma_flatten_range_split(gs: Seq<Seq<char>>, a: int, b: int, c: int)
    requires
        a <= b <= c,
    ensures
        flatten_range(gs, a, c) == flatten_range(gs, a, b) + flatten_range(gs, b, c),
    decreases b - a,
{
    if a >= b {
        assert(flatten_range(gs, a, b) =~= Seq::empty());
        assert(flatten_range(gs, a, c) =~= flatten_range(gs, a, b) + flatten_range(gs, b, c));
    } else {
        lemma_flatten_range_split(gs, a + 1, b, c);
        assert(flatten_range(gs, a, c) =~= flatten_range(gs, a, b) + flatten_range(gs, b, c));
    }
}

/// Extending a grapheme range by one grapheme appends that grapheme's text.
pub proof fn lemma_flatten_range_snoc(gs: Seq<Seq<char>>, a: int, b: int)
    requires
        a <= b,
    ensures
        flatten_range(gs, a, b + 1) == flatten_range(gs, a, b) + gs[b],
{
    lemma_flatten_range_split(gs, a, b, b + 1);
    reveal_with_fuel(flatten_range, 2);
    assert(flatten_range(gs, b, b + 1) =~= gs[b] + Seq::<char>::empty());
    assert(gs[b] + Seq::<char>::empty() =~= gs[b]);
}

} // verus!
