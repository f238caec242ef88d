use vstd::prelude::*;
use crate::unicode::char_to_string;

verus! {

/// The decimal digit character for a value below ten.
pub open spec fn digit_char(d: int) -> char {
    if d == 0 {
        '0'
    } else if d == 1 {
        '1'
    } else if d == 2 {
        '2'
    } else if d == 3 {
        '3'
    } else if d == 4 {
        '4'
    } else if d == 5 {
        '5'
    } else if d == 6 {
        '6'
    } else if d == 7 {
        '7'
    } else if d == 8 {
        '8'
    } else {
        '9'
    }
}

/// The decimal rendering of a nonnegative integer, most significant digit
/// first, with no leading zero except for zero itself.
pub open spec fn dec_str(n: int) -> Seq<char>
    decreases n,
{
    if n < 10 {
        seq![digit_char(n)]
    } else {
        dec_str(n / 10) + seq![digit_char(n % 10)]
    }
}

/// Whether a character is a decimal ASCII digit.
pub open spec fn is_digit_char(c: char) -> bool {
    '0' as int <= c as int && c as int <= '9' as int
}

/// The numeric value of a decimal ASCII digit.
pub open spec fn digit_val(c: char) -> int {
    c as int - '0' as int
}

/// Whether every character of the sequence is a decimal ASCII digit.
pub open spec fn all_digits(s: Seq<char>) -> bool {
    forall|i: int| 0 <= i < s.len() ==> is_digit_char(#[trigger] s[i])
}

/// The numeric value of a sequence of decimal ASCII digits, read most
/// significant digit first.
pub open spec fn digits_val(s: Seq<char>) -> int
    decreases s.len(),
{
    if s.len() == 0 {
        0
    } else {
        digits_val(s.drop_last()) * 10 + digit_val(s.last())
    }
}

/// Appending a digit multiplies the value by ten and adds the digit.
pub proof fn lemma_digits_val_snoc(x: Seq<char>, c: char)
    ensures
        digits_val(x + seq![c]) == digits_val(x) * 10 + digit_val(c),
{
    let y = x + seq![c];
    assert(y.drop_last() =~= x);
    assert(y.last() == c);
}

/// The value of a digit sequence is nonnegative.
pub proof fn lemma_digits_val_nonneg(x: Seq<char>)
    requires
        all_digits(x),
    ensures
        digits_val(x) >= 0,
    decreases x.len(),
{
    if x.len() > 0 {
        assert(all_digits(x.drop_last()));
        lemma_digits_val_nonneg(x.drop_last());
    }
}

/// The decimal digit character for a value below ten, as an executable step.
pub(crate) fn digit_to_char(d: u64) -> (c: char)
    requires
        d < 10,
    ensures
        c == digit_char(d as int),
{
    if d == 0 {
        '0'
    } else if d == 1 {
        '1'
    } else if d == 2 {
        '2'
    } else if d == 3 {
        '3'
    } else if d == 4 {
        '4'
    } else if d == 5 {
        '5'
    } else if d == 6 {
        '6'
    } else if d == 7 {
        '7'
    } else if d == 8 {
        '8'
    } else {
        '9'
    }
}

/// Render a number in decimal.
pub fn u64_to_string(n: u64) -> (s: String)
    ensures
        s@ == dec_str(n as int),
    decreases n,
{
    if n < 10 {
        char_to_string(digit_to_char(n))
    } else {
        let high = u64_to_string(n / 10);
        let low = char_to_string(digit_to_char(n % 10));
        let r = high.concat(low.as_str());
        assert(r@ =~= dec_str(n as int));
        r
    }
}

} // verus!
