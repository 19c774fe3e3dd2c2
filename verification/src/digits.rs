//! Positional numerals: how a number is written in decimal and in lower-case
//! hexadecimal, and how a numeral is aligned in a field.

use vstd::prelude::*;

verus! {

/// `String::push` appends the given character to the end of the string and
/// leaves what was there before untouched.
pub assume_specification[ String::push ](s: &mut String, c: char)
    ensures
        final(s)@ == old(s)@.push(c),
;

/// The digits of the numerals written here, each at the place of its value.
pub open spec fn digit_alphabet() -> Seq<char> {
    "0123456789abcdef"@
}

/// The character that stands for the digit `d`, for `d` below sixteen.
pub open spec fn digit_char(d: int) -> char {
    digit_alphabet()[d]
}

/// The decimal numeral of `n`: no sign, no leading zero, `"0"` for zero.
pub open spec fn decimal_digits(n: nat) -> Seq<char>
    decreases n,
{
    if n < 10 {
        seq![digit_char(n as int)]
    } else {
        decimal_digits(n / 10).push(digit_char((n % 10) as int))
    }
}

/// The lower-case hexadecimal numeral of `n`, without prefix: no sign, no
/// leading zero, `"0"` for zero.
pub open spec fn hex_digits(n: nat) -> Seq<char>
    decreases n,
{
    if n < 16 {
        seq![digit_char(n as int)]
    } else {
        hex_digits(n / 16).push(digit_char((n % 16) as int))
    }
}

/// `width` spaces.
pub open spec fn blanks(width: nat) -> Seq<char> {
    Seq::new(width, |i: int| ' ')
}

/// `text` at the right end of a field of at least `width` characters: blanks
/// fill the field from the left, and a longer text is kept whole.
pub open spec fn right_aligned(text: Seq<char>, width: nat) -> Seq<char> {
    if text.len() < width {
        blanks((width - text.len()) as nat) + text
    } else {
        text
    }
}

/// The value of the digit that `c` stands for: its place in the alphabet.
pub open spec fn digit_value(c: char) -> int {
    digit_alphabet().index_of(c)
}

/// Whether `c` is one of the first `radix` digits.
pub open spec fn is_digit(c: char, radix: int) -> bool {
    exists|d: int| 0 <= d < radix && d < 16 && c == #[trigger] digit_char(d)
}

/// The number that the numeral `digits` denotes in the given radix, the most
/// significant digit first.
pub open spec fn numeral_value(digits: Seq<char>, radix: nat) -> nat
    decreases digits.len(),
{
    if digits.len() == 0 {
        0
    } else {
        (numeral_value(digits.drop_last(), radix) * radix + digit_value(digits.last())) as nat
    }
}

/// Each digit has one character of its own, and none of them is a blank, a
/// line break or a sign.
pub proof fn lemma_digit_chars(d: int)
    requires
        0 <= d < 16,
    ensures
        digit_value(digit_char(d)) == d,
        digit_char(d) != ' ',
        digit_char(d) != '\n',
        digit_char(d) != '-',
{
    reveal_strlit("0123456789abcdef");
    let alphabet = digit_alphabet();
    assert(alphabet.len() == 16);
    assert(alphabet[d] == digit_char(d));
    let found = alphabet.index_of(digit_char(d));
    assert(0 <= found < 16 && alphabet[found] == digit_char(d));
    assert(forall|i: int, j: int| 0 <= i < j < 16 ==> alphabet[i] != alphabet[j]);
}

/// A decimal numeral is never empty, is made of the ten decimal digits alone,
/// begins with a zero only where the number is zero, and denotes the number it
/// was written for.
pub proof fn lemma_decimal_numeral(n: nat)
    ensures
        decimal_digits(n).len() >= 1,
        forall|i: int| 0 <= i < decimal_digits(n).len() ==> is_digit(#[trigger] decimal_digits(n)[i], 10),
        decimal_digits(n)[0] == digit_char(0) <==> n == 0,
        numeral_value(decimal_digits(n), 10) == n,
    decreases n,
{
    let numeral = decimal_digits(n);
    if n < 10 {
        lemma_digit_chars(n as int);
        lemma_digit_chars(0);
        assert(numeral.drop_last() =~= Seq::<char>::empty());
        assert(numeral_value(numeral.drop_last(), 10) == 0);
    } else {
        lemma_decimal_numeral(n / 10);
        lemma_digit_chars((n % 10) as int);
        assert(numeral.drop_last() =~= decimal_digits(n / 10));
        assert(numeral[0] == decimal_digits(n / 10)[0]);
        assert forall|i: int| 0 <= i < numeral.len() implies is_digit(#[trigger] numeral[i], 10) by {
            if i < numeral.len() - 1 {
                assert(numeral[i] == decimal_digits(n / 10)[i]);
            }
        }
    }
}

/// A hexadecimal numeral is never empty, is made of the sixteen lower-case
/// hexadecimal digits alone, begins with a zero only where the number is zero,
/// and denotes the number it was written for.
pub proof fn lemma_hex_numeral(n: nat)
    ensures
        hex_digits(n).len() >= 1,
        forall|i: int| 0 <= i < hex_digits(n).len() ==> is_digit(#[trigger] hex_digits(n)[i], 16),
        hex_digits(n)[0] == digit_char(0) <==> n == 0,
        numeral_value(hex_digits(n), 16) == n,
    decreases n,
{
    let numeral = hex_digits(n);
    if n < 16 {
        lemma_digit_chars(n as int);
        lemma_digit_chars(0);
        assert(numeral.drop_last() =~= Seq::<char>::empty());
        assert(numeral_value(numeral.drop_last(), 16) == 0);
    } else {
        lemma_hex_numeral(n / 16);
        lemma_digit_chars((n % 16) as int);
        assert(numeral.drop_last() =~= hex_digits(n / 16));
        assert(numeral[0] == hex_digits(n / 16)[0]);
        assert forall|i: int| 0 <= i < numeral.len() implies is_digit(#[trigger] numeral[i], 16) by {
            if i < numeral.len() - 1 {
                assert(numeral[i] == hex_digits(n / 16)[i]);
            }
        }
    }
}

fn digit(d: usize) -> (c: char)
    requires
        d < 16,
    ensures
        c == digit_char(d as int),
{
    proof {
        reveal_strlit("0123456789abcdef");
    }
    "0123456789abcdef".get_char(d)
}

/// Appends the decimal numeral of `n` to `out`.
pub fn push_decimal(out: &mut String, n: usize)
    ensures
        final(out)@ == old(out)@ + decimal_digits(n as nat),
    decreases n,
{
    if n >= 10 {
        push_decimal(out, n / 10);
    }
    out.push(digit(n % 10));
}

/// Appends the lower-case hexadecimal numeral of `n` to `out`.
pub fn push_hex(out: &mut String, n: usize)
    ensures
        final(out)@ == old(out)@ + hex_digits(n as nat),
    decreases n,
{
    if n >= 16 {
        push_hex(out, n / 16);
    }
    out.push(digit(n % 16));
}

/// Appends `text` to `out`, right-aligned in a field of `width` characters.
pub fn push_right_aligned(out: &mut String, text: &str, width: usize)
    ensures
        final(out)@ == old(out)@ + right_aligned(text@, width as nat),
{
    let len: usize = text.unicode_len();
    let mut filled: usize = len;
    while filled < width
        invariant
            len == text@.len(),
            len <= filled,
            filled <= width || filled == len,
            out@ == old(out)@ + blanks((filled - len) as nat),
        decreases width - filled,
    {
        out.push(' ');
        filled = filled + 1;
    }
    out.append(text);
}

} // verus!
