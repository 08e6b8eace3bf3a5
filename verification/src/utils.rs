//! Readers for what the system hands over as bytes: machine words of the
//! kernel-side program's records, the list of online CPUs, the kernel's
//! release string, and an address written in hexadecimal.

use vstd::prelude::*;
use vstd::slice::slice_subrange;
use vstd::string::StringSliceAdditionalSpecFns;
use crate::text::{
    ByteClass,
    Radix,
    find_first,
    first_in,
    lemma_first_in,
    number,
    parse_number,
    trim_end,
    trimmed_end,
};

verus! {

/// Size of a machine word of the records, in bytes.
pub const WORD_SIZE: usize = 8;

/// The number that eight bytes write with the least significant byte first.
pub open spec fn word_le(b: Seq<u8>) -> u64 {
    (b[0] + b[1] * 0x100 + b[2] * 0x1_0000 + b[3] * 0x100_0000 + b[4] * 0x1_0000_0000 + b[5]
        * 0x100_0000_0000 + b[6] * 0x1_0000_0000_0000 + b[7] * 0x100_0000_0000_0000) as u64
}

/// The number that eight bytes write with the most significant byte first.
pub open spec fn word_be(b: Seq<u8>) -> u64 {
    (b[7] + b[6] * 0x100 + b[5] * 0x1_0000 + b[4] * 0x100_0000 + b[3] * 0x1_0000_0000 + b[2]
        * 0x100_0000_0000 + b[1] * 0x1_0000_0000_0000 + b[0] * 0x100_0000_0000_0000) as u64
}

/// `word` is what the eight bytes `b` hold in the byte order of some machine.
pub open spec fn is_word(b: Seq<u8>, word: u64) -> bool {
    b.len() == 8 && (word == word_le(b) || word == word_be(b))
}

/// Copies the first eight bytes of `bytes` into a `u64` by
/// `plain::copy_from_bytes`. That function fails exactly when fewer bytes
/// are given than the target holds, and otherwise lays the bytes over the
/// target's memory, so the result is their value in the byte order of the
/// machine that runs it.
#[verifier::external_body]
fn word_from_bytes(bytes: &[u8]) -> (word: Option<u64>)
    ensures
        word is Some <==> bytes@.len() >= 8,
        word matches Some(w) ==> is_word(bytes@.subrange(0, 8), w),
{
    let mut word: u64 = 0;
    match plain::copy_from_bytes(&mut word, bytes) {
        Ok(()) => Some(word),
        Err(_) => None,
    }
}

/// The bytes `at..at + 8` of `s`, where they exist.
pub open spec fn word_bytes(s: Seq<u8>, at: int) -> Seq<u8> {
    s.subrange(at, at + 8)
}

/// Reads the machine word that starts at byte `at` of `args`, in the byte
/// order of the machine. There is a word if and only if eight bytes follow `at`.
pub fn cast(args: &[u8], at: usize) -> (word: Option<u64>)
    ensures
        word is Some <==> at + 8 <= args@.len(),
        word matches Some(w) ==> is_word(word_bytes(args@, at as int), w),
{
    if at > args.len() || args.len() - at < WORD_SIZE {
        return None;
    }
    let window = slice_subrange(args, at, at + WORD_SIZE);
    assert(window@.subrange(0, 8) =~= word_bytes(args@, at as int));
    word_from_bytes(window)
}

/// An inclusive range of CPU ids.
pub struct CpuRange {
    pub first: int,
    pub last: int,
}

/// The range that one item of the list, `s[from..to]`, stands for: `a-b` is
/// the range from `a` to `b`, and `a` alone the range from `a` to `a`. Ids are
/// decimal numbers without sign that fit `i32`.
pub open spec fn parse_item(s: Seq<u8>, from: int, to: int) -> Option<CpuRange> {
    let dash = first_in(s, ByteClass::Byte(0x2d), from, to);
    if dash < to {
        match (
            number(s.subrange(from, dash), 10, i32::MAX as nat),
            number(s.subrange(dash + 1, to), 10, i32::MAX as nat),
        ) {
            (Some(first), Some(last)) => Some(CpuRange { first: first as int, last: last as int }),
            _ => None,
        }
    } else {
        match number(s.subrange(from, to), 10, i32::MAX as nat) {
            Some(id) => Some(CpuRange { first: id as int, last: id as int }),
            None => None,
        }
    }
}

/// The ranges that the items of `s[pos..end]` stand for, the items being
/// separated by commas; `None` if one of them is malformed.
pub open spec fn parse_items(s: Seq<u8>, pos: int, end: int) -> Option<Seq<CpuRange>>
    decreases end - pos,
{
    let comma = first_in(s, ByteClass::Byte(0x2c), pos, end);
    match parse_item(s, pos, comma) {
        None => None,
        Some(item) => if comma >= end {
            Some(seq![item])
        } else {
            proof {
                lemma_first_in(s, ByteClass::Byte(0x2c), pos, end);
            }
            match parse_items(s, comma + 1, end) {
                Some(rest) => Some(seq![item] + rest),
                None => None,
            }
        },
    }
}

/// The ids of one range, ascending. A range whose last id is below its
/// first holds none.
pub open spec fn expand_item(item: CpuRange) -> Seq<i32> {
    Seq::new(
        if item.last >= item.first {
            (item.last - item.first + 1) as nat
        } else {
            0
        },
        |k: int| (item.first + k) as i32,
    )
}

/// The ids of all ranges, range after range.
pub open spec fn expand(items: Seq<CpuRange>) -> Seq<i32>
    decreases items.len(),
{
    if items.len() == 0 {
        Seq::empty()
    } else {
        expand(items.drop_last()) + expand_item(items.last())
    }
}

/// The items of a CPU list: what is left of `s` once the white space around
/// it is cut off, split at commas.
pub open spec fn cpu_list_items(s: Seq<u8>) -> Option<Seq<CpuRange>> {
    let start = first_in(s, ByteClass::NotSpace, 0, s.len() as int);
    let end = trimmed_end(s, start, s.len() as int);
    parse_items(s, start, end)
}

/// The CPU ids that a CPU list names, or `None` if the list is malformed.
pub open spec fn online_cpus(s: Seq<u8>) -> Option<Seq<i32>> {
    match cpu_list_items(s) {
        Some(items) => Some(expand(items)),
        None => None,
    }
}

/// Every range is in itself ascending and lies wholly before the next: the
/// form in which the kernel writes the list.
pub open spec fn ascending_items(items: Seq<CpuRange>) -> bool {
    &&& forall|i: int| 0 <= i < items.len() ==> 0 <= (#[trigger] items[i]).first <= items[i].last
    &&& forall|i: int, j: int|
        0 <= i < j < items.len() ==> (#[trigger] items[i]).last < (#[trigger] items[j]).first
}

/// One of the ranges holds `id`.
pub open spec fn names_id(items: Seq<CpuRange>, id: int) -> bool {
    exists|i: int| 0 <= i < items.len() && (#[trigger] items[i]).first <= id <= items[i].last
}

/// The ids of the ranges are no others than those that a range holds.
pub proof fn lemma_expand_covers(items: Seq<CpuRange>)
    requires
        forall|i: int|
            0 <= i < items.len() ==> 0 <= (#[trigger] items[i]).first && items[i].last
                <= i32::MAX,
    ensures
        forall|k: int|
            0 <= k < expand(items).len() ==> names_id(items, #[trigger] expand(items)[k] as int),
        forall|id: int|
            #[trigger] names_id(items, id) ==> exists|k: int|
                0 <= k < expand(items).len() && #[trigger] expand(items)[k] == id,
    decreases items.len(),
{
    if items.len() > 0 {
        let before = items.drop_last();
        let item = items.last();
        lemma_expand_covers(before);
        let all = expand(items);
        assert forall|k: int| 0 <= k < all.len() implies names_id(
            items,
            #[trigger] all[k] as int,
        ) by {
            if k < expand(before).len() {
                let id = all[k] as int;
                assert(id == expand(before)[k]);
                assert(names_id(before, id));
                let i = choose|i: int|
                    0 <= i < before.len() && (#[trigger] before[i]).first <= id <= before[i].last;
                assert(items[i] == before[i]);
            } else {
                let offset = k - expand(before).len();
                assert(all[k] == expand_item(item)[offset]);
                assert(items[items.len() - 1] == item);
            }
        }
        assert forall|id: int| #[trigger] names_id(items, id) implies exists|k: int|
            0 <= k < all.len() && #[trigger] all[k] == id by {
            let i = choose|i: int|
                0 <= i < items.len() && (#[trigger] items[i]).first <= id <= items[i].last;
            if i < before.len() {
                assert(before[i] == items[i]);
                assert(names_id(before, id));
                let k = choose|k: int|
                    0 <= k < expand(before).len() && #[trigger] expand(before)[k] == id;
                assert(all[k] == id);
            } else {
                let k = expand(before).len() + id - item.first;
                assert(all[k] == expand_item(item)[id - item.first]);
            }
        }
    }
}

/// Ascending ranges expand to strictly ascending ids, so that none occurs twice.
pub proof fn lemma_expand_ascending(items: Seq<CpuRange>)
    requires
        ascending_items(items),
        forall|i: int| 0 <= i < items.len() ==> (#[trigger] items[i]).last <= i32::MAX,
    ensures
        forall|k: int, l: int|
            0 <= k < l < expand(items).len() ==> (#[trigger] expand(items)[k]) < (
            #[trigger] expand(items)[l]),
    decreases items.len(),
{
    if items.len() > 0 {
        let before = items.drop_last();
        let item = items.last();
        assert forall|i: int| 0 <= i < before.len() implies 0 <= (#[trigger] before[i]).first
            <= before[i].last && before[i].last < item.first by {
            assert(before[i] == items[i]);
            assert(items[items.len() - 1] == item);
        }
        lemma_expand_ascending(before);
        lemma_expand_covers(before);
        let all = expand(items);
        let split = expand(before).len() as int;
        assert forall|k: int, l: int| 0 <= k < l < all.len() implies (#[trigger] all[k]) < (
        #[trigger] all[l]) by {
            if l < split {
                assert(all[k] == expand(before)[k] && all[l] == expand(before)[l]);
            } else {
                assert(all[l] == expand_item(item)[l - split]);
                if k < split {
                    let id = all[k] as int;
                    assert(id == expand(before)[k]);
                    assert(names_id(before, id));
                } else {
                    assert(all[k] == expand_item(item)[k - split]);
                }
            }
        }
    }
}

/// Reads one item of a CPU list.
fn read_item(bytes: &[u8], from: usize, to: usize) -> (range: Option<(i32, i32)>)
    requires
        from <= to <= bytes.len(),
    ensures
        match parse_item(bytes@, from as int, to as int) {
            Some(item) => {
                &&& range == Some((item.first as i32, item.last as i32))
                &&& 0 <= item.first <= i32::MAX
                &&& 0 <= item.last <= i32::MAX
            },
            None => range is None,
        },
{
    let dash = find_first(bytes, ByteClass::Byte(0x2d), from, to);
    if dash < to {
        let first = parse_number(bytes, from, dash, Radix::Decimal, i32::MAX as u64);
        let last = parse_number(bytes, dash + 1, to, Radix::Decimal, i32::MAX as u64);
        match (first, last) {
            (Some(first), Some(last)) => Some((first as i32, last as i32)),
            _ => None,
        }
    } else {
        match parse_number(bytes, from, to, Radix::Decimal, i32::MAX as u64) {
            Some(id) => Some((id as i32, id as i32)),
            None => None,
        }
    }
}

/// Expands the list of online CPUs, as the kernel writes it (`0-3,7`), to
/// the ids it names, in the order of the list. A list that holds anything but
/// ids, dashes and commas within its surrounding white space has no expansion.
///
/// The result holds the ids that the items name and no others; where the
/// items ascend, as the kernel writes them, it is strictly ascending.
pub fn get_online_cpus(list: &str) -> (cpus: Option<Vec<i32>>)
    ensures
        match online_cpus(list.spec_bytes()) {
            Some(ids) => cpus matches Some(v) && v@ == ids,
            None => cpus is None,
        },
        cpus matches Some(v) ==> cpu_list_items(list.spec_bytes()) matches Some(items) && {
            &&& forall|k: int| 0 <= k < v.len() ==> names_id(items, #[trigger] v[k] as int)
            &&& forall|id: int|
                #[trigger] names_id(items, id) ==> exists|k: int|
                    0 <= k < v.len() && #[trigger] v[k] == id
            &&& ascending_items(items) ==> forall|k: int, l: int|
                0 <= k < l < v.len() ==> (#[trigger] v[k]) < (#[trigger] v[l])
        },
{
    let bytes = list.as_bytes();
    let len = bytes.len();
    let start = find_first(bytes, ByteClass::NotSpace, 0, len);
    let end = trim_end(bytes, start, len);
    let mut cpus: Vec<i32> = Vec::new();
    let mut pos: usize = start;
    let ghost s = bytes@;
    let ghost mut done: Seq<CpuRange> = Seq::empty();
    loop
        invariant
            s == bytes@,
            s == list.spec_bytes(),
            len == bytes.len(),
            start == first_in(s, ByteClass::NotSpace, 0, len as int),
            end == trimmed_end(s, start as int, len as int),
            start <= pos <= end <= len,
            cpus@ == expand(done),
            forall|i: int|
                0 <= i < done.len() ==> 0 <= (#[trigger] done[i]).first && done[i].last
                    <= i32::MAX,
            parse_items(s, start as int, end as int) == match parse_items(
                s,
                pos as int,
                end as int,
            ) {
                Some(rest) => Some(done + rest),
                None => None,
            },
        decreases end - pos,
    {
        let comma = find_first(bytes, ByteClass::Byte(0x2c), pos, end);
        match read_item(bytes, pos, comma) {
            None => {
                return None;
            },
            Some((first, last)) => {
                let ghost item = parse_item(s, pos as int, comma as int).unwrap();
                let ghost before = cpus@;
                let mut c: i64 = first as i64;
                while c <= last as i64
                    invariant
                        first <= c <= last + 1 || (first > last && c == first),
                        first == item.first,
                        last == item.last,
                        cpus@ == before + expand_item(CpuRange { first: item.first, last: c - 1 }),
                    decreases last + 1 - c,
                {
                    cpus.push(c as i32);
                    c += 1;
                }
                proof {
                    assert(cpus@ =~= before + expand_item(item));
                    assert(done.push(item).drop_last() =~= done);
                    assert(cpus@ == expand(done.push(item)));
                    if comma < end {
                        if let Some(rest) = parse_items(s, comma + 1, end as int) {
                            assert(done + (seq![item] + rest) =~= done.push(item) + rest);
                        }
                    } else {
                        assert(done + seq![item] =~= done.push(item));
                    }
                    done = done.push(item);
                }
                if comma >= end {
                    proof {
                        lemma_expand_covers(done);
                        if ascending_items(done) {
                            lemma_expand_ascending(done);
                        }
                    }
                    return Some(cpus);
                }
                pos = comma + 1;
            },
        }
    }
}

/// The major and minor number at the start of a kernel release string such
/// as `6.5.0-14-generic`: decimal digits, a dot, decimal digits. Each must
/// fit `u32`.
pub open spec fn kernel_version(s: Seq<u8>) -> Option<(u32, u32)> {
    let dot = first_in(s, ByteClass::Byte(0x2e), 0, s.len() as int);
    let minor_end = first_in(s, ByteClass::NotDigit, dot + 1, s.len() as int);
    if dot < s.len() {
        match (
            number(s.subrange(0, dot), 10, u32::MAX as nat),
            number(s.subrange(dot + 1, minor_end), 10, u32::MAX as nat),
        ) {
            (Some(major), Some(minor)) => Some((major as u32, minor as u32)),
            _ => None,
        }
    } else {
        None
    }
}

/// Reads the major and minor version from the kernel's release string.
pub fn uname_version(release: &str) -> (version: Option<(u32, u32)>)
    ensures
        version == kernel_version(release.spec_bytes()),
{
    let bytes = release.as_bytes();
    let len = bytes.len();
    let dot = find_first(bytes, ByteClass::Byte(0x2e), 0, len);
    if dot >= len {
        return None;
    }
    let minor_end = find_first(bytes, ByteClass::NotDigit, dot + 1, len);
    let major = parse_number(bytes, 0, dot, Radix::Decimal, u32::MAX as u64);
    let minor = parse_number(bytes, dot + 1, minor_end, Radix::Decimal, u32::MAX as u64);
    match (major, minor) {
        (Some(major), Some(minor)) => Some((major as u32, minor as u32)),
        _ => None,
    }
}

/// The hexadecimal digits of a literal: all of it, or what follows a leading
/// `0x` or `0X`.
pub open spec fn hex_digits_start(s: Seq<u8>) -> int {
    if s.len() >= 2 && s[0] == 0x30 && (s[1] == 0x78 || s[1] == 0x58) {
        2
    } else {
        0
    }
}

/// The address that a hexadecimal literal writes: one or more hexadecimal
/// digits, with or without a leading `0x`, that fit `usize`.
pub open spec fn hex_literal(s: Seq<u8>) -> Option<usize> {
    match number(s.subrange(hex_digits_start(s), s.len() as int), 16, usize::MAX as nat) {
        Some(v) => Some(v as usize),
        None => None,
    }
}

/// Reads an address written in hexadecimal.
pub fn hexstr2int(s: &str) -> (addr: Option<usize>)
    ensures
        addr == hex_literal(s.spec_bytes()),
{
    let bytes = s.as_bytes();
    let len = bytes.len();
    let start: usize = if len >= 2 && bytes[0] == 0x30 && (bytes[1] == 0x78 || bytes[1] == 0x58) {
        2
    } else {
        0
    };
    match parse_number(bytes, start, len, Radix::Hex, usize::MAX as u64) {
        Some(v) => Some(v as usize),
        None => None,
    }
}

} // verus!
