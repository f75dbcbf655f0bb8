//! Building human-readable text: decimal and hexadecimal numerals and
//! string concatenation.

use vstd::prelude::*;
use vstd::string::StrSliceExecFns;

verus! {

/// The character for a digit below 16 (lowercase for digits above 9).
pub open spec fn digit_char(d: nat) -> char {
    if d == 0 { '0' }
    else if d == 1 { '1' }
    else if d == 2 { '2' }
    else if d == 3 { '3' }
    else if d == 4 { '4' }
    else if d == 5 { '5' }
    else if d == 6 { '6' }
    else if d == 7 { '7' }
    else if d == 8 { '8' }
    else if d == 9 { '9' }
    else if d == 10 { 'a' }
    else if d == 11 { 'b' }
    else if d == 12 { 'c' }
    else if d == 13 { 'd' }
    else if d == 14 { 'e' }
    else { 'f' }
}

/// The digits of `n` in the given base (2..=16), most significant first,
/// without leading zeros; zero is the single digit `0`.
pub open spec fn digits(n: nat, base: nat) -> Seq<char>
    decreases n,
{
    if base < 2 || n < base {
        seq![digit_char(n)]
    } else {
        proof {
            vstd::arithmetic::div_mod::lemma_div_decreases(n as int, base as int);
        }
        digits(n / base, base).push(digit_char(n % base))
    }
}

/// Decimal numeral of `n`.
pub open spec fn decimal_text(n: nat) -> Seq<char> {
    digits(n, 10)
}

/// Hexadecimal numeral of `n` with the `0x` prefix.
pub open spec fn hex_text(n: nat) -> Seq<char> {
    seq!['0', 'x'] + digits(n, 16)
}

/// Appends one character to a string (`String::push`).
#[verifier::external_body]
pub(crate) fn push_char(s: &mut String, c: char)
    ensures
        final(s)@ == old(s)@.push(c),
{
    s.push(c);
}

/// Appends a string slice to a string (`String::push_str`).
#[verifier::external_body]
pub(crate) fn push_str_chars(s: &mut String, t: &str)
    ensures
        final(s)@ == old(s)@ + t@,
{
    s.push_str(t);
}

fn digit_to_char(d: u64) -> (c: char)
    requires
        d < 16,
    ensures
        c == digit_char(d as nat),
{
    if d == 0 { '0' }
    else if d == 1 { '1' }
    else if d == 2 { '2' }
    else if d == 3 { '3' }
    else if d == 4 { '4' }
    else if d == 5 { '5' }
    else if d == 6 { '6' }
    else if d == 7 { '7' }
    else if d == 8 { '8' }
    else if d == 9 { '9' }
    else if d == 10 { 'a' }
    else if d == 11 { 'b' }
    else if d == 12 { 'c' }
    else if d == 13 { 'd' }
    else if d == 14 { 'e' }
    else { 'f' }
}

/// Appends the digits of `n` in base `base`.
pub fn push_digits(s: &mut String, n: u64, base: u64)
    requires
        2 <= base <= 16,
    ensures
        final(s)@ == old(s)@ + digits(n as nat, base as nat),
    decreases n,
{
    if n >= base {
        proof {
            vstd::arithmetic::div_mod::lemma_div_decreases(n as int, base as int);
        }
        push_digits(s, n / base, base);
    }
    push_char(s, digit_to_char(n % base));
    proof {
        if n >= base {
            assert(final(s)@ =~= old(s)@ + digits(n as nat, base as nat));
        } else {
            vstd::arithmetic::div_mod::lemma_small_mod(n as nat, base as nat);
            assert(final(s)@ =~= old(s)@ + digits(n as nat, base as nat));
        }
    }
}

/// Appends the decimal numeral of `n`.
pub fn push_decimal(s: &mut String, n: u64)
    ensures
        final(s)@ == old(s)@ + decimal_text(n as nat),
{
    push_digits(s, n, 10);
}

/// Appends `0x` followed by the hexadecimal digits of `n`.
pub fn push_hex(s: &mut String, n: u64)
    ensures
        final(s)@ == old(s)@ + hex_text(n as nat),
{
    push_str_chars(s, "0x");
    proof {
        reveal_strlit("0x");
    }
    push_digits(s, n, 16);
    assert(final(s)@ =~= old(s)@ + hex_text(n as nat));
}

/// The decimal numeral of `n` as a new string.
pub fn decimal_string(n: u64) -> (s: String)
    ensures
        s@ == decimal_text(n as nat),
{
    let mut s = String::new();
    push_decimal(&mut s, n);
    assert(s@ =~= decimal_text(n as nat));
    s
}


/// `t` padded on the left with `fill` to at least `w` characters.
pub open spec fn pad_left(t: Seq<char>, w: nat, fill: char) -> Seq<char> {
    if t.len() >= w {
        t
    } else {
        Seq::new((w - t.len()) as nat, |i: int| fill) + t
    }
}

/// `t` padded on the right with spaces to at least `w` characters.
pub open spec fn pad_right(t: Seq<char>, w: nat) -> Seq<char> {
    if t.len() >= w {
        t
    } else {
        t + Seq::new((w - t.len()) as nat, |i: int| ' ')
    }
}

/// Appends `fill` `n` times.
fn push_fill(s: &mut String, fill: char, n: usize)
    ensures
        final(s)@ == old(s)@ + Seq::new(n as nat, |i: int| fill),
{
    let mut k: usize = 0;
    while k < n
        invariant
            k <= n,
            s@ == old(s)@ + Seq::new(k as nat, |i: int| fill),
        decreases n - k,
    {
        push_char(s, fill);
        k = k + 1;
        assert(s@ =~= old(s)@ + Seq::new(k as nat, |i: int| fill));
    }
}

/// Appends `t` padded on the left with `fill` to at least `w` characters.
pub fn push_pad_left(s: &mut String, t: &str, w: usize, fill: char)
    ensures
        final(s)@ == old(s)@ + pad_left(t@, w as nat, fill),
{
    let n = t.unicode_len();
    if n < w {
        push_fill(s, fill, w - n);
    }
    push_str_chars(s, t);
    assert(final(s)@ =~= old(s)@ + pad_left(t@, w as nat, fill));
}

/// Appends `t` padded on the right with spaces to at least `w` characters.
pub fn push_pad_right(s: &mut String, t: &str, w: usize)
    ensures
        final(s)@ == old(s)@ + pad_right(t@, w as nat),
{
    let n = t.unicode_len();
    push_str_chars(s, t);
    if n < w {
        push_fill(s, ' ', w - n);
    }
    assert(final(s)@ =~= old(s)@ + pad_right(t@, w as nat));
}

/// The uppercase hexadecimal digit for `d` below 16.
pub open spec fn upper_hex_digit(d: nat) -> char {
    if d < 10 {
        digit_char(d)
    } else if d == 10 {
        'A'
    } else if d == 11 {
        'B'
    } else if d == 12 {
        'C'
    } else if d == 13 {
        'D'
    } else if d == 14 {
        'E'
    } else {
        'F'
    }
}

/// The eight uppercase hexadecimal digits of `n`, most significant first.
pub open spec fn hex8_upper(n: u32) -> Seq<char> {
    Seq::new(8, |i: int| upper_hex_digit(((n >> ((28 - 4 * i) as u32)) & 15u32) as nat))
}

/// Appends the eight uppercase hexadecimal digits of `n`.
pub fn push_hex8_upper(s: &mut String, n: u32)
    ensures
        final(s)@ == old(s)@ + hex8_upper(n),
{
    let mut i: u32 = 0;
    while i < 8
        invariant
            i <= 8,
            s@ == old(s)@ + hex8_upper(n).take(i as int),
        decreases 8 - i,
    {
        let sh: u32 = 28 - 4 * i;
        let d = (n >> sh) & 15u32;
        assert(d < 16) by (bit_vector)
            requires
                d == (n >> sh) & 15u32,
        ;
        let c = if d < 10 {
            digit_to_char(d as u64)
        } else if d == 10 {
            'A'
        } else if d == 11 {
            'B'
        } else if d == 12 {
            'C'
        } else if d == 13 {
            'D'
        } else if d == 14 {
            'E'
        } else {
            'F'
        };
        push_char(s, c);
        assert(hex8_upper(n).take(i + 1) =~= hex8_upper(n).take(i as int).push(c));
        i = i + 1;
    }
    assert(hex8_upper(n).take(8) =~= hex8_upper(n));
}

/// Values that print as text.
pub trait ToText {
    /// How the value prints.
    spec fn text(&self) -> Seq<char>;

    /// The printed form.
    fn to_text(&self) -> (r: String)
        ensures
            r@ == self.text();
}

/// The printed forms of the values, separated by single spaces.
pub open spec fn spaced<T: ToText>(s: Seq<T>) -> Seq<char>
    decreases s.len(),
{
    if s.len() == 0 {
        Seq::empty()
    } else if s.len() == 1 {
        s[0].text()
    } else {
        spaced(s.drop_last()) + seq![' '] + s.last().text()
    }
}

} // verus!
