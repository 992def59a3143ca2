//! Building blocks for rendered text: decimal numerals, repeated characters
//! and padding, each with the sequence of characters it stands for.

use vstd::prelude::*;
use vstd::string::*;

verus! {

/// `String::push` appends exactly one character; it cannot fail.
pub assume_specification[ std::string::String::push ](s: &mut std::string::String, ch: char)
    ensures
        final(s)@ == old(s)@.push(ch),
;

/// The character that writes the digit `d`.
pub open spec fn digit_char(d: nat) -> char
    recommends
        d < 10,
{
    (48 + d) as char
}

/// The decimal numeral of `n`, most significant digit first, without leading
/// zeros (`0` is written "0").
pub open spec fn decimal(n: nat) -> Seq<char>
    decreases n,
{
    if n < 10 {
        seq![digit_char(n)]
    } else {
        decimal(n / 10).push(digit_char(n % 10))
    }
}

/// `n` copies of `c`.
pub open spec fn repeated(c: char, n: nat) -> Seq<char> {
    Seq::new(n, |i: int| c)
}

/// `text` followed by as many `fill` as it takes to reach `width` characters;
/// a text that is already that long is left as it is.
pub open spec fn pad_right(text: Seq<char>, width: nat, fill: char) -> Seq<char> {
    if text.len() >= width {
        text
    } else {
        text + repeated(fill, (width - text.len()) as nat)
    }
}

/// `text` preceded by as many `fill` as it takes to reach `width` characters;
/// a text that is already that long is left as it is.
pub open spec fn pad_left(text: Seq<char>, width: nat, fill: char) -> Seq<char> {
    if text.len() >= width {
        text
    } else {
        repeated(fill, (width - text.len()) as nat) + text
    }
}

/// A numeral has at least one digit, and no more digits than its value
/// unless the value is zero.
pub proof fn lemma_decimal_len(n: nat)
    ensures
        decimal(n).len() >= 1,
        n >= 1 ==> decimal(n).len() <= n,
    decreases n,
{
    if n >= 10 {
        lemma_decimal_len(n / 10);
    }
}

/// The number of digits of a `u64` is at most twenty.
pub proof fn lemma_decimal_len_u64(n: u64)
    ensures
        1 <= decimal(n as nat).len() <= 20,
{
    reveal_with_fuel(decimal, 21);
}

/// Appends `n` copies of `c` to `out`.
pub fn push_repeated(out: &mut String, c: char, n: u64)
    ensures
        final(out)@ == old(out)@ + repeated(c, n as nat),
{
    let mut i: u64 = 0;
    while i < n
        invariant
            i <= n,
            out@ == old(out)@ + repeated(c, i as nat),
        decreases n - i,
    {
        out.push(c);
        i += 1;
    }
}

/// The digits of `n`, most significant first.
pub fn decimal_digits(n: u64) -> (digits: Vec<char>)
    ensures
        digits@ == decimal(n as nat),
    decreases n,
{
    let last = (48u8 + (n % 10) as u8) as char;
    if n < 10 {
        let mut digits = Vec::new();
        digits.push(last);
        digits
    } else {
        let mut digits = decimal_digits(n / 10);
        digits.push(last);
        digits
    }
}

/// Appends the characters of `chars` to `out`, in order.
pub fn push_chars(out: &mut String, chars: &Vec<char>)
    ensures
        final(out)@ == old(out)@ + chars@,
{
    let mut i: usize = 0;
    while i < chars.len()
        invariant
            i <= chars.len(),
            out@ == old(out)@ + chars@.take(i as int),
        decreases chars.len() - i,
    {
        out.push(chars[i]);
        i += 1;
    }
}

/// Appends the decimal numeral of `n`, padded on the right with spaces to
/// `width` characters.
pub fn push_decimal_left_aligned(out: &mut String, n: u64, width: u64)
    ensures
        final(out)@ == old(out)@ + pad_right(decimal(n as nat), width as nat, ' '),
{
    let digits = decimal_digits(n);
    proof {
        lemma_decimal_len_u64(n);
    }
    push_chars(out, &digits);
    let used: u64 = digits.len() as u64;
    if used < width {
        push_repeated(out, ' ', width - used);
    }
}

/// Appends the decimal numeral of `n`, padded on the left with zeros to
/// `width` characters.
pub fn push_decimal_zero_padded(out: &mut String, n: u64, width: u64)
    ensures
        final(out)@ == old(out)@ + pad_left(decimal(n as nat), width as nat, '0'),
{
    let digits = decimal_digits(n);
    proof {
        lemma_decimal_len_u64(n);
    }
    let used: u64 = digits.len() as u64;
    if used < width {
        push_repeated(out, '0', width - used);
    }
    push_chars(out, &digits);
}

} // verus!
