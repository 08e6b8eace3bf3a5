//! Small helpers on text shared by the parsers and the formatters.

use vstd::prelude::*;

verus! {

/// The characters of a string, in order.
pub fn chars_of(s: &str) -> (v: Vec<char>)
    ensures
        v@ == s@,
{
    let mut v: Vec<char> = Vec::new();
    for c in iter: s.chars()
        invariant
            v@ == iter.seq().take(iter.index() as int),
            iter.seq() == s@,
    {
        v.push(c);
    }
    v
}

/// Appends one character to a string by `String::push`, which puts the
/// character after those the string already holds.
#[verifier::external_body]
pub(crate) fn push_char(s: &mut String, c: char)
    ensures
        final(s)@ == old(s)@.push(c),
{
    s.push(c)
}

/// The string made of the characters `chars[from..to]`.
pub fn string_of(chars: &Vec<char>, from: usize, to: usize) -> (s: String)
    requires
        from <= to <= chars.len(),
    ensures
        s@ == chars@.subrange(from as int, to as int),
{
    let mut s = String::new();
    let mut i: usize = from;
    while i < to
        invariant
            from <= i <= to <= chars.len(),
            s@ == chars@.subrange(from as int, i as int),
        decreases to - i,
    {
        push_char(&mut s, chars[i]);
        i += 1;
    }
    s
}

/// ASCII white space: space, tab, line feed, vertical tab, form feed and
/// carriage return.
pub open spec fn is_space(b: u8) -> bool {
    b == 0x20 || (0x09 <= b && b <= 0x0d)
}

/// A set of bytes to look for while scanning.
#[derive(Debug, Clone, Copy, PartialEq, Eq)]
pub enum ByteClass {
    /// White space.
    Space,
    /// Anything but white space.
    NotSpace,
    /// One given byte.
    Byte(u8),
    /// Anything but a decimal digit.
    NotDigit,
}

impl ByteClass {
    pub open spec fn has(self, b: u8) -> bool {
        match self {
            ByteClass::Space => is_space(b),
            ByteClass::NotSpace => !is_space(b),
            ByteClass::Byte(c) => b == c,
            ByteClass::NotDigit => !(0x30 <= b && b <= 0x39),
        }
    }

    /// Whether `b` belongs to the class.
    pub fn test(self, b: u8) -> (r: bool)
        ensures
            r == self.has(b),
    {
        match self {
            ByteClass::Space => b == 0x20 || (0x09 <= b && b <= 0x0d),
            ByteClass::NotSpace => !(b == 0x20 || (0x09 <= b && b <= 0x0d)),
            ByteClass::Byte(c) => b == c,
            ByteClass::NotDigit => !(0x30 <= b && b <= 0x39),
        }
    }
}

/// The least position in `from..to` whose byte is in `class`, or `to` where
/// there is none.
pub open spec fn first_in(s: Seq<u8>, class: ByteClass, from: int, to: int) -> int
    decreases to - from,
{
    if from >= to {
        to
    } else if class.has(s[from]) {
        from
    } else {
        first_in(s, class, from + 1, to)
    }
}

/// `first_in` lies in `from..=to`, no byte before it is in the class, and the
/// byte at it is, unless it is `to`.
pub proof fn lemma_first_in(s: Seq<u8>, class: ByteClass, from: int, to: int)
    requires
        from <= to,
    ensures
        from <= first_in(s, class, from, to) <= to,
        forall|i: int| from <= i < first_in(s, class, from, to) ==> !class.has(#[trigger] s[i]),
        first_in(s, class, from, to) < to ==> class.has(s[first_in(s, class, from, to)]),
    decreases to - from,
{
    if from < to && !class.has(s[from]) {
        lemma_first_in(s, class, from + 1, to);
    }
}

/// Scans `bytes[from..to]` for the first byte in `class`.
pub fn find_first(bytes: &[u8], class: ByteClass, from: usize, to: usize) -> (at: usize)
    requires
        from <= to <= bytes.len(),
    ensures
        at == first_in(bytes@, class, from as int, to as int),
        from <= at <= to,
{
    let mut at: usize = from;
    while at < to && !class.test(bytes[at])
        invariant
            from <= at <= to <= bytes.len(),
            first_in(bytes@, class, from as int, to as int) == first_in(
                bytes@,
                class,
                at as int,
                to as int,
            ),
        decreases to - at,
    {
        at += 1;
    }
    at
}

/// The end of `from..to` once the white space at its end is cut off.
pub open spec fn trimmed_end(s: Seq<u8>, from: int, to: int) -> int
    decreases to - from,
{
    if from >= to {
        from
    } else if is_space(s[to - 1]) {
        trimmed_end(s, from, to - 1)
    } else {
        to
    }
}

/// Scans `bytes[from..to]` backwards over the white space at its end.
pub fn trim_end(bytes: &[u8], from: usize, to: usize) -> (end: usize)
    requires
        from <= to <= bytes.len(),
    ensures
        end == trimmed_end(bytes@, from as int, to as int),
        from <= end <= to,
{
    let mut end: usize = to;
    while end > from && ByteClass::Space.test(bytes[end - 1])
        invariant
            from <= end <= to <= bytes.len(),
            trimmed_end(bytes@, from as int, to as int) == trimmed_end(
                bytes@,
                from as int,
                end as int,
            ),
        decreases end - from,
    {
        end -= 1;
    }
    end
}

/// A base in which numbers are written.
#[derive(Debug, Clone, Copy, PartialEq, Eq)]
pub enum Radix {
    Decimal,
    Hex,
}

impl Radix {
    pub open spec fn base(self) -> nat {
        match self {
            Radix::Decimal => 10,
            Radix::Hex => 16,
        }
    }

    /// The base as a number.
    pub fn value(self) -> (base: u64)
        ensures
            base == self.base(),
    {
        match self {
            Radix::Decimal => 10,
            Radix::Hex => 16,
        }
    }
}

/// The value of a digit in base `radix`, for `radix` up to sixteen: `0` to
/// `9`, then `a` to `f` in either case.
pub open spec fn digit_value(b: u8, radix: nat) -> Option<nat> {
    let v: int = if 0x30 <= b && b <= 0x39 {
        b - 0x30
    } else if 0x61 <= b && b <= 0x66 {
        b - 0x61 + 10
    } else if 0x41 <= b && b <= 0x46 {
        b - 0x41 + 10
    } else {
        16
    };
    if v < radix {
        Some(v as nat)
    } else {
        None
    }
}

/// Every byte of `s` is a digit in base `radix`.
pub open spec fn all_digits(s: Seq<u8>, radix: nat) -> bool {
    forall|i: int| 0 <= i < s.len() ==> (#[trigger] digit_value(s[i], radix)) is Some
}

/// The number that the digits `s` write in base `radix`, most significant
/// digit first.
pub open spec fn digits_value(s: Seq<u8>, radix: nat) -> nat
    decreases s.len(),
{
    if s.len() == 0 {
        0
    } else {
        digits_value(s.drop_last(), radix) * radix + match digit_value(s.last(), radix) {
            Some(v) => v,
            None => 0,
        }
    }
}

/// The number that `s` writes: `s` is a run of one or more digits in base
/// `radix`, without sign or prefix, and the number is at most `max`.
pub open spec fn number(s: Seq<u8>, radix: nat, max: nat) -> Option<nat> {
    if s.len() > 0 && all_digits(s, radix) && digits_value(s, radix) <= max {
        Some(digits_value(s, radix))
    } else {
        None
    }
}

/// The digits read so far never write more than all the digits do.
pub proof fn lemma_digits_value_prefix(s: Seq<u8>, k: int, radix: nat)
    requires
        0 <= k <= s.len(),
        radix >= 1,
    ensures
        digits_value(s.take(k), radix) <= digits_value(s, radix),
    decreases s.len() - k,
{
    if k == s.len() {
        assert(s.take(k) =~= s);
    } else {
        lemma_digits_value_prefix(s.drop_last(), k, radix);
        assert(s.drop_last().take(k) =~= s.take(k));
        let high = digits_value(s.drop_last(), radix);
        assert(high <= high * radix) by (nonlinear_arith)
            requires
                radix >= 1,
        ;
    }
}

/// The value of one digit.
pub fn digit_of(b: u8, radix: Radix) -> (d: Option<u64>)
    ensures
        match digit_value(b, radix.base()) {
            Some(v) => d == Some(v as u64),
            None => d is None,
        },
        d matches Some(v) ==> v < radix.base(),
{
    let v: u64 = if 0x30 <= b && b <= 0x39 {
        (b - 0x30) as u64
    } else if 0x61 <= b && b <= 0x66 {
        (b - 0x61) as u64 + 10
    } else if 0x41 <= b && b <= 0x46 {
        (b - 0x41) as u64 + 10
    } else {
        16
    };
    if v < radix.value() {
        Some(v)
    } else {
        None
    }
}

/// Reads `bytes[from..to]` as a number that is at most `max`.
pub fn parse_number(bytes: &[u8], from: usize, to: usize, radix: Radix, max: u64) -> (n: Option<
    u64,
>)
    requires
        from <= to <= bytes.len(),
    ensures
        match number(bytes@.subrange(from as int, to as int), radix.base(), max as nat) {
            Some(v) => n == Some(v as u64),
            None => n is None,
        },
{
    let ghost s = bytes@.subrange(from as int, to as int);
    if from == to {
        return None;
    }
    let base = radix.value();
    let mut acc: u64 = 0;
    let mut i: usize = from;
    while i < to
        invariant
            from <= i <= to <= bytes.len(),
            base == radix.base(),
            s == bytes@.subrange(from as int, to as int),
            all_digits(s.take(i - from), radix.base()),
            acc == digits_value(s.take(i - from), radix.base()),
            acc <= max,
        decreases to - i,
    {
        let ghost read = s.take(i - from + 1);
        assert(read.drop_last() =~= s.take(i - from));
        assert(read.last() == bytes@[i as int]);
        match digit_of(bytes[i], radix) {
            None => {
                assert(digit_value(s[i - from], radix.base()) is None);
                return None;
            },
            Some(d) => {
                let next: u128 = acc as u128 * base as u128 + d as u128;
                proof {
                    assert(acc * base <= 0xffff_ffff_ffff_ffff * 16) by (nonlinear_arith)
                        requires
                            acc <= 0xffff_ffff_ffff_ffff,
                            base <= 16,
                    ;
                    assert(next == digits_value(read, radix.base()));
                }
                if next > max as u128 {
                    proof {
                        lemma_digits_value_prefix(s, i - from + 1, radix.base());
                    }
                    return None;
                }
                acc = next as u64;
                assert forall|j: int| 0 <= j < read.len() implies (#[trigger] digit_value(
                    read[j],
                    radix.base(),
                )) is Some by {
                    if j < read.len() - 1 {
                        assert(read[j] == s.take(i - from)[j]);
                    }
                }
            },
        }
        i += 1;
    }
    assert(s.take(to - from) =~= s);
    Some(acc)
}

} // verus!
