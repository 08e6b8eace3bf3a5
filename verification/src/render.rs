//! Numbers as text: decimal, and hexadecimal with the prefix `0x`.

use vstd::prelude::*;
use crate::text::{Radix, push_char};

verus! {

/// The character of a digit below sixteen: `0` to `9`, then `a` to `f`.
pub open spec fn digit_char(d: nat) -> char {
    if d < 10 {
        (0x30 + d) as u8 as char
    } else {
        (0x57 + d) as u8 as char
    }
}

/// The digits of `n` in base `radix`, most significant first, without
/// leading zeros; zero is the one digit `0`.
pub open spec fn digits(n: nat, radix: nat) -> Seq<char>
    decreases n,
{
    if radix < 2 || n < radix {
        seq![digit_char(n)]
    } else {
        proof {
            assert(n / radix < n) by (nonlinear_arith)
                requires
                    radix >= 2,
                    n >= radix,
            ;
        }
        digits(n / radix, radix).push(digit_char(n % radix))
    }
}

/// `count` times the character `c`.
pub open spec fn repeat(c: char, count: int) -> Seq<char> {
    Seq::new(
        if count > 0 {
            count as nat
        } else {
            0
        },
        |i: int| c,
    )
}

/// `n` in hexadecimal behind the prefix `0x`.
pub open spec fn hex_prefixed(n: nat) -> Seq<char> {
    seq!['0', 'x'] + digits(n, 16)
}

/// `n` in hexadecimal behind the prefix `0x`, with zeros between prefix and
/// digits where the whole would be shorter than `width` characters.
pub open spec fn hex_padded(n: nat, width: nat) -> Seq<char> {
    seq!['0', 'x'] + repeat('0', width - 2 - digits(n, 16).len()) + digits(n, 16)
}

/// The character of one digit.
fn char_of_digit(d: u64) -> (c: char)
    requires
        d < 16,
    ensures
        c == digit_char(d as nat),
{
    if d < 10 {
        (0x30 + d as u8) as char
    } else {
        (0x57 + d as u8) as char
    }
}

/// Appends the digits of `n`.
pub fn push_digits(s: &mut String, n: u64, radix: Radix)
    ensures
        final(s)@ == old(s)@ + digits(n as nat, radix.base()),
    decreases n,
{
    let base = radix.value();
    if n >= base {
        push_digits(s, n / base, radix);
    }
    push_char(s, char_of_digit(n % base));
}

/// The digits of `n`.
pub fn digits_of(n: u64, radix: Radix) -> (v: Vec<char>)
    ensures
        v@ == digits(n as nat, radix.base()),
    decreases n,
{
    let base = radix.value();
    let mut v: Vec<char> = if n >= base {
        digits_of(n / base, radix)
    } else {
        Vec::new()
    };
    v.push(char_of_digit(n % base));
    v
}

/// Appends the characters `chars`.
pub fn push_chars(s: &mut String, chars: &Vec<char>)
    ensures
        final(s)@ == old(s)@ + chars@,
{
    let mut i: usize = 0;
    while i < chars.len()
        invariant
            i <= chars.len(),
            s@ == old(s)@ + chars@.take(i as int),
        decreases chars.len() - i,
    {
        push_char(s, chars[i]);
        i += 1;
    }
}

/// Appends `count` times the character `c`.
pub fn push_repeat(s: &mut String, c: char, count: usize)
    ensures
        final(s)@ == old(s)@ + repeat(c, count as int),
{
    let mut i: usize = 0;
    while i < count
        invariant
            i <= count,
            s@ == old(s)@ + repeat(c, i as int),
        decreases count - i,
    {
        push_char(s, c);
        i += 1;
    }
}

/// The decimal digits of `n` as a string.
pub fn decimal(n: u64) -> (s: String)
    ensures
        s@ == digits(n as nat, 10),
{
    let mut s = String::new();
    push_digits(&mut s, n, Radix::Decimal);
    s
}

/// Appends `n` in hexadecimal behind `0x`.
pub fn push_hex_prefixed(s: &mut String, n: u64)
    ensures
        final(s)@ == old(s)@ + hex_prefixed(n as nat),
{
    push_char(s, '0');
    push_char(s, 'x');
    push_digits(s, n, Radix::Hex);
}

/// Appends `n` in hexadecimal behind `0x`, filled with zeros to `width` characters.
pub fn push_hex_padded(s: &mut String, n: u64, width: usize)
    ensures
        final(s)@ == old(s)@ + hex_padded(n as nat, width as nat),
{
    let number = digits_of(n, Radix::Hex);
    push_char(s, '0');
    push_char(s, 'x');
    if width >= 2 && width - 2 > number.len() {
        push_repeat(s, '0', width - 2 - number.len());
    }
    push_chars(s, &number);
}

} // verus!
