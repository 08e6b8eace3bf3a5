//! The symbols that the running kernel exports, indexed by kind and name.
//!
//! The kernel lists one symbol per line as `<hex-address> <type> <name>`,
//! possibly followed by further columns. The type `t` or `T` marks a
//! function, any other type marks data. A line with fewer than three columns,
//! or with an address that is no hexadecimal number, ends the list. Symbols at
//! address zero are left out, and of several symbols with one kind and name
//! the first in the list counts.

use vstd::prelude::*;
use vstd::slice::{slice_subrange, slice_to_vec};
use vstd::string::StringSliceAdditionalSpecFns;
use crate::order::{
    Order,
    compare_bytes,
    lemma_lex_equal,
    lemma_lex_flip,
    lemma_lex_transitive,
    lex_order,
};
use crate::text::{
    ByteClass,
    Radix,
    find_first,
    first_in,
    lemma_first_in,
    number,
    parse_number,
};

verus! {

pub const KSYM_INVALID: u8 = 0;

pub const KSYM_FUNC: u8 = 1;

pub const KSYM_DATA: u8 = 2;

/// A symbol as a mathematical value.
pub struct SymbolRecord {
    pub name: Seq<u8>,
    pub kind: u8,
    pub addr: usize,
}

/// One symbol of the kernel.
#[derive(Debug)]
pub struct Ksym {
    pub(crate) name: Vec<u8>,
    pub(crate) kind: u8,
    pub(crate) addr: usize,
}

impl View for Ksym {
    type V = SymbolRecord;

    closed spec fn view(&self) -> SymbolRecord {
        SymbolRecord { name: self.name@, kind: self.kind, addr: self.addr }
    }
}

impl Ksym {
    pub fn new(name: &str, kind: u8, addr: usize) -> (sym: Self)
        ensures
            sym@ == (SymbolRecord { name: name.spec_bytes(), kind, addr }),
    {
        Ksym { name: slice_to_vec(name.as_bytes()), kind, addr }
    }
}

/// The order of two symbols: by kind, then by name.
pub open spec fn key_order(a: SymbolRecord, b: SymbolRecord) -> Order {
    if a.kind < b.kind {
        Order::Less
    } else if a.kind > b.kind {
        Order::Greater
    } else {
        lex_order(a.name, b.name)
    }
}

/// Two symbols have the same kind and name.
pub open spec fn same_key(a: SymbolRecord, b: SymbolRecord) -> bool {
    a.kind == b.kind && a.name == b.name
}

/// Symbols are in the order `Equal` exactly when kind and name agree, and
/// the order is a strict total order on kind and name otherwise.
pub proof fn lemma_key_order(a: SymbolRecord, b: SymbolRecord, c: SymbolRecord)
    ensures
        key_order(a, b) is Equal <==> same_key(a, b),
        key_order(a, b) is Less <==> key_order(b, a) is Greater,
        key_order(a, b) is Less && key_order(b, c) is Less ==> key_order(a, c) is Less,
{
    lemma_lex_equal(a.name, b.name);
    lemma_lex_flip(a.name, b.name);
    if key_order(a, b) is Less && key_order(b, c) is Less && a.kind == b.kind && b.kind == c.kind {
        lemma_lex_transitive(a.name, b.name, c.name);
    }
}

/// Compares two symbols by kind, then by name.
pub fn compare_keys(a: &Ksym, b: &Ksym) -> (order: Order)
    ensures
        order == key_order(a@, b@),
{
    if a.kind < b.kind {
        Order::Less
    } else if a.kind > b.kind {
        Order::Greater
    } else {
        compare_bytes(a.name.as_slice(), b.name.as_slice())
    }
}

/// The symbol that the line `s[start..end]` lists, if it has three columns and
/// its first column is a hexadecimal address.
pub open spec fn parse_line(s: Seq<u8>, start: int, end: int) -> Option<SymbolRecord> {
    let addr_start = first_in(s, ByteClass::NotSpace, start, end);
    let addr_end = first_in(s, ByteClass::Space, addr_start, end);
    let type_start = first_in(s, ByteClass::NotSpace, addr_end, end);
    let type_end = first_in(s, ByteClass::Space, type_start, end);
    let name_start = first_in(s, ByteClass::NotSpace, type_end, end);
    let name_end = first_in(s, ByteClass::Space, name_start, end);
    if name_start < end {
        match number(s.subrange(addr_start, addr_end), 16, usize::MAX as nat) {
            Some(addr) => Some(
                SymbolRecord {
                    name: s.subrange(name_start, name_end),
                    kind: if type_end == type_start + 1 && (s[type_start] == 0x74 || s[type_start]
                        == 0x54) {
                        KSYM_FUNC
                    } else {
                        KSYM_DATA
                    },
                    addr: addr as usize,
                },
            ),
            None => None,
        }
    } else {
        None
    }
}

/// The symbols that the lines of `s` from `pos` on list, up to the first line
/// that lists none, without those at address zero.
pub open spec fn parse_records(s: Seq<u8>, pos: int) -> Seq<SymbolRecord>
    decreases s.len() + 1 - pos,
{
    if pos < 0 || pos >= s.len() {
        Seq::empty()
    } else {
        let end = first_in(s, ByteClass::Byte(0x0a), pos, s.len() as int);
        match parse_line(s, pos, end) {
            None => Seq::empty(),
            Some(record) => {
                proof {
                    lemma_first_in(s, ByteClass::Byte(0x0a), pos, s.len() as int);
                }
                let rest = parse_records(s, end + 1);
                if record.addr == 0 {
                    rest
                } else {
                    seq![record] + rest
                }
            },
        }
    }
}

/// The symbols of a sequence as mathematical values.
spec fn records_of(syms: Seq<Ksym>) -> Seq<SymbolRecord> {
    syms.map_values(|sym: Ksym| sym@)
}

/// Reads the line `bytes[start..end]`.
fn read_line(bytes: &[u8], start: usize, end: usize) -> (sym: Option<Ksym>)
    requires
        start <= end <= bytes.len(),
    ensures
        match parse_line(bytes@, start as int, end as int) {
            Some(record) => sym matches Some(k) && k@ == record,
            None => sym is None,
        },
{
    let addr_start = find_first(bytes, ByteClass::NotSpace, start, end);
    let addr_end = find_first(bytes, ByteClass::Space, addr_start, end);
    let type_start = find_first(bytes, ByteClass::NotSpace, addr_end, end);
    let type_end = find_first(bytes, ByteClass::Space, type_start, end);
    let name_start = find_first(bytes, ByteClass::NotSpace, type_end, end);
    let name_end = find_first(bytes, ByteClass::Space, name_start, end);
    if name_start >= end {
        return None;
    }
    match parse_number(bytes, addr_start, addr_end, Radix::Hex, usize::MAX as u64) {
        None => None,
        Some(addr) => {
            let is_func = type_end - type_start == 1 && (bytes[type_start] == 0x74
                || bytes[type_start] == 0x54);
            let kind = if is_func {
                KSYM_FUNC
            } else {
                KSYM_DATA
            };
            let name = slice_to_vec(slice_subrange(bytes, name_start, name_end));
            Some(Ksym { name, kind, addr: addr as usize })
        },
    }
}

/// Reads every line of `bytes` up to the first that lists no symbol.
fn read_records(bytes: &[u8]) -> (syms: Vec<Ksym>)
    ensures
        records_of(syms@) == parse_records(bytes@, 0),
        forall|i: int| 0 <= i < syms.len() ==> (#[trigger] syms[i])@.addr != 0,
{
    let mut syms: Vec<Ksym> = Vec::new();
    let mut pos: usize = 0;
    let len = bytes.len();
    assert(records_of(syms@) + parse_records(bytes@, 0) =~= parse_records(bytes@, 0));
    while pos < len
        invariant
            pos <= len,
            len == bytes.len(),
            records_of(syms@) + parse_records(bytes@, pos as int) == parse_records(bytes@, 0),
            forall|i: int| 0 <= i < syms.len() ==> (#[trigger] syms[i])@.addr != 0,
        decreases len - pos,
    {
        let end = find_first(bytes, ByteClass::Byte(0x0a), pos, len);
        let ghost before = records_of(syms@);
        match read_line(bytes, pos, end) {
            None => {
                assert(records_of(syms@) =~= parse_records(bytes@, 0));
                return syms;
            },
            Some(sym) => {
                if sym.addr != 0 {
                    let ghost record = sym@;
                    syms.push(sym);
                    assert(records_of(syms@) =~= before + seq![record]);
                    assert(before + (seq![record] + parse_records(bytes@, end + 1)) =~= (before
                        + seq![record]) + parse_records(bytes@, end + 1));
                }
                if end >= len {
                    assert(records_of(syms@) =~= parse_records(bytes@, 0));
                    return syms;
                }
                pos = end + 1;
            },
        }
    }
    assert(records_of(syms@) =~= parse_records(bytes@, 0));
    syms
}

/// No symbol from `lo` up to `m` has the kind and name of the symbol at `m`.
spec fn is_first(recs: Seq<SymbolRecord>, lo: int, m: int) -> bool {
    forall|k: int| lo <= k < m ==> !same_key(#[trigger] recs[k], recs[m])
}

/// `order` holds a position whose symbol has the kind and name of the symbol at `m`.
spec fn listed(recs: Seq<SymbolRecord>, order: Seq<usize>, m: int) -> bool {
    exists|i: int| 0 <= i < order.len() && same_key(recs[#[trigger] order[i] as int], recs[m])
}

/// `order` lists, for each kind and name that occurs in `recs[lo..hi]`, the
/// position of its first symbol there, ascending by kind and name.
spec fn indexes(recs: Seq<SymbolRecord>, order: Seq<usize>, lo: int, hi: int) -> bool {
    &&& forall|i: int| 0 <= i < order.len() ==> lo <= #[trigger] order[i] < hi
    &&& forall|i: int| 0 <= i < order.len() ==> is_first(recs, lo, #[trigger] order[i] as int)
    &&& forall|i: int, j: int|
        0 <= i < j < order.len() ==> key_order(
            recs[#[trigger] order[i] as int],
            recs[#[trigger] order[j] as int],
        ) is Less
    &&& forall|m: int| lo <= m < hi ==> #[trigger] listed(recs, order, m)
}

/// The positions `out` are within `lo..hi`, each the first of its kind and
/// name from `lo` on, ascending by kind and name.
spec fn ascending_firsts(recs: Seq<SymbolRecord>, out: Seq<usize>, lo: int, hi: int) -> bool {
    &&& forall|x: int| 0 <= x < out.len() ==> lo <= #[trigger] out[x] < hi
    &&& forall|x: int| 0 <= x < out.len() ==> is_first(recs, lo, #[trigger] out[x] as int)
    &&& forall|x: int, y: int|
        0 <= x < y < out.len() ==> key_order(
            recs[#[trigger] out[x] as int],
            recs[#[trigger] out[y] as int],
        ) is Less
}

/// Every position in `out` stands before every position of `rest` from `from` on.
spec fn precedes(recs: Seq<SymbolRecord>, out: Seq<usize>, rest: Seq<usize>, from: int) -> bool {
    forall|x: int, y: int|
        0 <= x < out.len() && from <= y < rest.len() ==> key_order(
            recs[#[trigger] out[x] as int],
            recs[#[trigger] rest[y] as int],
        ) is Less
}

/// `out` holds the kind and name of each of the first `upto` positions of `passed`.
spec fn holds(recs: Seq<SymbolRecord>, out: Seq<usize>, passed: Seq<usize>, upto: int) -> bool {
    forall|y: int|
        0 <= y < upto ==> exists|x: int|
            0 <= x < out.len() && same_key(
                recs[#[trigger] out[x] as int],
                recs[#[trigger] passed[y] as int],
            )
}

/// The state of a merge that has passed `i` positions of `left` and `j` of
/// `right` and has put out `out`.
#[verifier::opaque]
spec fn merging(
    recs: Seq<SymbolRecord>,
    left: Seq<usize>,
    right: Seq<usize>,
    out: Seq<usize>,
    i: int,
    j: int,
    lo: int,
    mid: int,
    hi: int,
) -> bool {
    &&& 0 <= lo <= mid <= hi <= recs.len()
    &&& 0 <= i <= left.len()
    &&& 0 <= j <= right.len()
    &&& indexes(recs, left, lo, mid)
    &&& indexes(recs, right, mid, hi)
    &&& ascending_firsts(recs, out, lo, hi)
    &&& precedes(recs, out, left, i)
    &&& precedes(recs, out, right, j)
    &&& holds(recs, out, left, i)
    &&& holds(recs, out, right, j)
}

/// Putting out one more position keeps what `out` held.
proof fn lemma_holds_push(
    recs: Seq<SymbolRecord>,
    out: Seq<usize>,
    passed: Seq<usize>,
    upto: int,
    at: usize,
)
    requires
        holds(recs, out, passed, upto),
    ensures
        holds(recs, out.push(at), passed, upto),
        0 <= upto < passed.len() && same_key(recs[at as int], recs[passed[upto] as int]) ==> holds(
            recs,
            out.push(at),
            passed,
            upto + 1,
        ),
{
    let next = out.push(at);
    assert forall|y: int| 0 <= y < upto implies exists|x: int|
        0 <= x < next.len() && same_key(
            recs[#[trigger] next[x] as int],
            recs[#[trigger] passed[y] as int],
        ) by {
        let x = choose|x: int|
            0 <= x < out.len() && same_key(recs[#[trigger] out[x] as int], recs[passed[y] as int]);
        assert(next[x] == out[x]);
    }
    if 0 <= upto < passed.len() && same_key(recs[at as int], recs[passed[upto] as int]) {
        assert forall|y: int| 0 <= y < upto + 1 implies exists|x: int|
            0 <= x < next.len() && same_key(
                recs[#[trigger] next[x] as int],
                recs[#[trigger] passed[y] as int],
            ) by {
            if y < upto {
                let x = choose|x: int|
                    0 <= x < out.len() && same_key(
                        recs[#[trigger] out[x] as int],
                        recs[passed[y] as int],
                    );
                assert(next[x] == out[x]);
            } else {
                assert(next[out.len() as int] == at);
            }
        }
    }
}

/// Putting out a position that stands before all of `rest` from `from` on
/// keeps `out` before them.
proof fn lemma_precedes_push(
    recs: Seq<SymbolRecord>,
    out: Seq<usize>,
    rest: Seq<usize>,
    from: int,
    at: usize,
)
    requires
        precedes(recs, out, rest, from),
        forall|y: int|
            from <= y < rest.len() ==> key_order(recs[at as int], recs[#[trigger] rest[y] as int])
                is Less,
    ensures
        precedes(recs, out.push(at), rest, from),
{
    let next = out.push(at);
    assert forall|x: int, y: int| 0 <= x < next.len() && from <= y < rest.len() implies key_order(
        recs[#[trigger] next[x] as int],
        recs[#[trigger] rest[y] as int],
    ) is Less by {
        if x < out.len() {
            assert(next[x] == out[x]);
        } else {
            assert(next[x] == at);
        }
    }
}

/// Putting out a position that all of `out` stands before keeps `out` ascending.
proof fn lemma_ascending_push(
    recs: Seq<SymbolRecord>,
    out: Seq<usize>,
    lo: int,
    hi: int,
    at: usize,
)
    requires
        ascending_firsts(recs, out, lo, hi),
        lo <= at < hi,
        is_first(recs, lo, at as int),
        forall|x: int|
            0 <= x < out.len() ==> key_order(recs[#[trigger] out[x] as int], recs[at as int])
                is Less,
    ensures
        ascending_firsts(recs, out.push(at), lo, hi),
{
    let next = out.push(at);
    assert forall|x: int| 0 <= x < next.len() implies lo <= #[trigger] next[x] < hi by {
        if x < out.len() {
            assert(next[x] == out[x]);
        }
    }
    assert forall|x: int| 0 <= x < next.len() implies is_first(
        recs,
        lo,
        #[trigger] next[x] as int,
    ) by {
        if x < out.len() {
            assert(next[x] == out[x]);
        }
    }
    assert forall|x: int, y: int| 0 <= x < y < next.len() implies key_order(
        recs[#[trigger] next[x] as int],
        recs[#[trigger] next[y] as int],
    ) is Less by {
        assert(next[x] == out[x]);
        if y < out.len() {
            assert(next[y] == out[y]);
        }
    }
}

/// In an index, a position stands before all later ones, and before all
/// that a later one stands before.
proof fn lemma_before_rest(recs: Seq<SymbolRecord>, order: Seq<usize>, lo: int, hi: int, from: int)
    requires
        indexes(recs, order, lo, hi),
        0 <= from < order.len(),
    ensures
        forall|y: int|
            from < y < order.len() ==> key_order(
                recs[order[from] as int],
                recs[#[trigger] order[y] as int],
            ) is Less,
{
}

/// A symbol that stands before the position `from` of an index, or has its
/// kind and name, stands before all later positions.
proof fn lemma_before_later(
    recs: Seq<SymbolRecord>,
    order: Seq<usize>,
    lo: int,
    hi: int,
    from: int,
    rec: SymbolRecord,
)
    requires
        indexes(recs, order, lo, hi),
        0 <= from < order.len(),
        key_order(rec, recs[order[from] as int]) is Less || same_key(
            rec,
            recs[order[from] as int],
        ),
    ensures
        forall|y: int|
            from < y < order.len() ==> key_order(rec, recs[#[trigger] order[y] as int]) is Less,
{
    assert forall|y: int| from < y < order.len() implies key_order(
        rec,
        recs[#[trigger] order[y] as int],
    ) is Less by {
        lemma_key_order(rec, recs[order[from] as int], recs[order[y] as int]);
    }
}

/// The step of a merge that puts out the next position of `left`: the next
/// position of `right` stands behind it, or has its kind and name and is
/// passed over.
proof fn lemma_take_left(
    recs: Seq<SymbolRecord>,
    left: Seq<usize>,
    right: Seq<usize>,
    out: Seq<usize>,
    i: int,
    j: int,
    lo: int,
    mid: int,
    hi: int,
    skip_right: bool,
)
    requires
        merging(recs, left, right, out, i, j, lo, mid, hi),
        i < left.len(),
        skip_right ==> j < right.len() && key_order(recs[left[i] as int], recs[right[j] as int])
            is Equal,
        !skip_right ==> j == right.len() || key_order(recs[left[i] as int], recs[right[j] as int])
            is Less,
    ensures
        merging(
            recs,
            left,
            right,
            out.push(left[i]),
            i + 1,
            if skip_right {
                j + 1
            } else {
                j
            },
            lo,
            mid,
            hi,
        ),
{
    reveal(merging);
    let at = left[i];
    let rec = recs[at as int];
    let next_j = if skip_right {
        j + 1
    } else {
        j
    };
    assert(is_first(recs, lo, at as int));
    assert(lo <= at < mid);
    lemma_ascending_push(recs, out, lo, hi, at);
    lemma_before_rest(recs, left, lo, mid, i);
    lemma_precedes_push(recs, out, left, i + 1, at);
    if j < right.len() {
        lemma_key_order(rec, recs[right[j] as int], rec);
        lemma_before_later(recs, right, mid, hi, j, rec);
    }
    lemma_precedes_push(recs, out, right, next_j, at);
    lemma_holds_push(recs, out, left, i, at);
    lemma_holds_push(recs, out, right, j, at);
}

/// No position of `left` has the kind and name of `rec`, which stands behind
/// all that was put out and before the positions of `left` still to come.
proof fn lemma_absent_on_left(
    recs: Seq<SymbolRecord>,
    left: Seq<usize>,
    out: Seq<usize>,
    i: int,
    lo: int,
    mid: int,
    rec: SymbolRecord,
)
    requires
        indexes(recs, left, lo, mid),
        0 <= i <= left.len(),
        0 <= lo <= mid <= recs.len(),
        holds(recs, out, left, i),
        forall|x: int|
            0 <= x < out.len() ==> key_order(recs[#[trigger] out[x] as int], rec) is Less,
        i < left.len() ==> key_order(recs[left[i] as int], rec) is Greater,
    ensures
        forall|k: int| lo <= k < mid ==> !same_key(#[trigger] recs[k], rec),
{
    assert forall|k: int| lo <= k < mid implies !same_key(#[trigger] recs[k], rec) by {
        assert(listed(recs, left, k));
        let y = choose|y: int|
            0 <= y < left.len() && same_key(recs[#[trigger] left[y] as int], recs[k]);
        let other = recs[left[y] as int];
        if y < i {
            let x = choose|x: int|
                0 <= x < out.len() && same_key(
                    recs[#[trigger] out[x] as int],
                    recs[left[y] as int],
                );
            lemma_key_order(recs[out[x] as int], rec, rec);
        } else {
            lemma_key_order(recs[left[i] as int], rec, rec);
            lemma_key_order(rec, recs[left[i] as int], other);
            lemma_key_order(rec, other, rec);
        }
    }
}

/// The step of a merge that puts out the next position of `right`, which
/// stands before the next position of `left`.
proof fn lemma_take_right(
    recs: Seq<SymbolRecord>,
    left: Seq<usize>,
    right: Seq<usize>,
    out: Seq<usize>,
    i: int,
    j: int,
    lo: int,
    mid: int,
    hi: int,
)
    requires
        merging(recs, left, right, out, i, j, lo, mid, hi),
        j < right.len(),
        i == left.len() || key_order(recs[left[i] as int], recs[right[j] as int]) is Greater,
    ensures
        merging(recs, left, right, out.push(right[j]), i, j + 1, lo, mid, hi),
{
    reveal(merging);
    let at = right[j];
    let rec = recs[at as int];
    assert(is_first(recs, mid, at as int));
    assert(mid <= at < hi);
    lemma_absent_on_left(recs, left, out, i, lo, mid, rec);
    assert(is_first(recs, lo, at as int));
    lemma_ascending_push(recs, out, lo, hi, at);
    lemma_before_rest(recs, right, mid, hi, j);
    lemma_precedes_push(recs, out, right, j + 1, at);
    if i < left.len() {
        lemma_key_order(recs[left[i] as int], rec, rec);
        assert forall|y: int| i <= y < left.len() implies key_order(
            rec,
            recs[#[trigger] left[y] as int],
        ) is Less by {
            lemma_key_order(rec, recs[left[i] as int], recs[left[y] as int]);
        }
    }
    lemma_precedes_push(recs, out, left, i, at);
    lemma_holds_push(recs, out, left, i, at);
    lemma_holds_push(recs, out, right, j, at);
}

/// A merge that has passed all of both indexes has put out the index of the
/// whole range.
proof fn lemma_merged(
    recs: Seq<SymbolRecord>,
    left: Seq<usize>,
    right: Seq<usize>,
    out: Seq<usize>,
    lo: int,
    mid: int,
    hi: int,
)
    requires
        merging(recs, left, right, out, left.len() as int, right.len() as int, lo, mid, hi),
    ensures
        indexes(recs, out, lo, hi),
{
    reveal(merging);
    assert forall|m: int| lo <= m < hi implies #[trigger] listed(recs, out, m) by {
        if m < mid {
            assert(listed(recs, left, m));
            let y = choose|y: int|
                0 <= y < left.len() && same_key(recs[#[trigger] left[y] as int], recs[m]);
            let x = choose|x: int|
                0 <= x < out.len() && same_key(
                    recs[#[trigger] out[x] as int],
                    recs[left[y] as int],
                );
            assert(same_key(recs[out[x] as int], recs[m]));
        } else {
            assert(listed(recs, right, m));
            let y = choose|y: int|
                0 <= y < right.len() && same_key(recs[#[trigger] right[y] as int], recs[m]);
            let x = choose|x: int|
                0 <= x < out.len() && same_key(
                    recs[#[trigger] out[x] as int],
                    recs[right[y] as int],
                );
            assert(same_key(recs[out[x] as int], recs[m]));
        }
    }
}

/// Merges the index of `syms[lo..mid]` with that of `syms[mid..hi]`. Where
/// both hold a kind and name, the position from the first is kept.
fn merge(
    syms: &Vec<Ksym>,
    left: &Vec<usize>,
    right: &Vec<usize>,
    lo: usize,
    mid: usize,
    hi: usize,
) -> (out: Vec<usize>)
    requires
        lo <= mid <= hi <= syms.len(),
        indexes(records_of(syms@), left@, lo as int, mid as int),
        indexes(records_of(syms@), right@, mid as int, hi as int),
    ensures
        indexes(records_of(syms@), out@, lo as int, hi as int),
{
    let ghost recs = records_of(syms@);
    let mut out: Vec<usize> = Vec::new();
    let mut i: usize = 0;
    let mut j: usize = 0;
    proof {
        reveal(merging);
    }
    while i < left.len() || j < right.len()
        invariant
            recs == records_of(syms@),
            i <= left.len(),
            j <= right.len(),
            merging(
                recs,
                left@,
                right@,
                out@,
                i as int,
                j as int,
                lo as int,
                mid as int,
                hi as int,
            ),
        decreases left.len() - i + right.len() - j,
    {
        let mut take_left = true;
        let mut skip_right = false;
        if j < right.len() {
            if i >= left.len() {
                take_left = false;
            } else {
                proof {
                    reveal(merging);
                }
                match compare_keys(&syms[left[i]], &syms[right[j]]) {
                    Order::Less => {},
                    Order::Equal => {
                        skip_right = true;
                    },
                    Order::Greater => {
                        take_left = false;
                    },
                }
            }
        }
        if take_left {
            proof {
                lemma_take_left(
                    recs,
                    left@,
                    right@,
                    out@,
                    i as int,
                    j as int,
                    lo as int,
                    mid as int,
                    hi as int,
                    skip_right,
                );
            }
            out.push(left[i]);
            i += 1;
            if skip_right {
                j += 1;
            }
        } else {
            proof {
                lemma_take_right(
                    recs,
                    left@,
                    right@,
                    out@,
                    i as int,
                    j as int,
                    lo as int,
                    mid as int,
                    hi as int,
                );
            }
            out.push(right[j]);
            j += 1;
        }
    }
    proof {
        lemma_merged(recs, left@, right@, out@, lo as int, mid as int, hi as int);
    }
    out
}

/// Builds the index of `syms[lo..hi]` by sorting its halves and merging them.
fn index_range(syms: &Vec<Ksym>, lo: usize, hi: usize) -> (order: Vec<usize>)
    requires
        lo <= hi <= syms.len(),
    ensures
        indexes(records_of(syms@), order@, lo as int, hi as int),
    decreases hi - lo,
{
    if hi - lo == 0 {
        Vec::new()
    } else if hi - lo == 1 {
        let mut order: Vec<usize> = Vec::new();
        order.push(lo);
        proof {
            let recs = records_of(syms@);
            assert(order@[0] == lo);
            assert forall|m: int| lo <= m < hi implies #[trigger] listed(recs, order@, m) by {
                assert(same_key(recs[order@[0] as int], recs[m]));
            }
        }
        order
    } else {
        let mid = lo + (hi - lo) / 2;
        let left = index_range(syms, lo, mid);
        let right = index_range(syms, mid, hi);
        merge(syms, &left, &right, lo, mid, hi)
    }
}

/// The symbol has the given kind and name.
pub open spec fn has_key(record: SymbolRecord, kind: u8, name: Seq<u8>) -> bool {
    record.kind == kind && record.name == name
}

/// The position of the first symbol from `from` on with the given kind and
/// name, or the length of `records` where there is none.
pub open spec fn first_match(records: Seq<SymbolRecord>, kind: u8, name: Seq<u8>, from: int) -> int
    decreases records.len() - from,
{
    if from < 0 || from >= records.len() {
        records.len() as int
    } else if has_key(records[from], kind, name) {
        from
    } else {
        first_match(records, kind, name, from + 1)
    }
}

/// The address of the first symbol with the given kind and name.
pub open spec fn lookup(records: Seq<SymbolRecord>, kind: u8, name: Seq<u8>) -> Option<usize> {
    let at = first_match(records, kind, name, 0);
    if at < records.len() {
        Some(records[at].addr)
    } else {
        None
    }
}

/// `first_match` is the least position from `from` on whose symbol has the
/// kind and name.
pub proof fn lemma_first_match(records: Seq<SymbolRecord>, kind: u8, name: Seq<u8>, from: int)
    requires
        0 <= from <= records.len(),
    ensures
        from <= first_match(records, kind, name, from) <= records.len(),
        forall|k: int|
            from <= k < first_match(records, kind, name, from) ==> !has_key(
                #[trigger] records[k],
                kind,
                name,
            ),
        first_match(records, kind, name, from) < records.len() ==> has_key(
            records[first_match(records, kind, name, from)],
            kind,
            name,
        ),
    decreases records.len() - from,
{
    if from < records.len() && !has_key(records[from], kind, name) {
        lemma_first_match(records, kind, name, from + 1);
    }
}

/// A position before which no symbol has the kind and name, and whose own
/// symbol has them unless it is the length, is the first match.
pub proof fn lemma_first_match_is(
    records: Seq<SymbolRecord>,
    kind: u8,
    name: Seq<u8>,
    from: int,
    at: int,
)
    requires
        0 <= from <= at <= records.len(),
        forall|k: int| from <= k < at ==> !has_key(#[trigger] records[k], kind, name),
        at < records.len() ==> has_key(records[at], kind, name),
    ensures
        first_match(records, kind, name, from) == at,
    decreases at - from,
{
    if from < at {
        lemma_first_match_is(records, kind, name, from + 1, at);
    }
}

/// A lookup finds a symbol exactly when one with the kind and name is in
/// the list, and what it finds is the address of such a symbol. A symbol
/// of another kind is never found, whatever its name.
pub proof fn lemma_lookup(records: Seq<SymbolRecord>, kind: u8, name: Seq<u8>)
    ensures
        lookup(records, kind, name) is Some <==> exists|i: int|
            0 <= i < records.len() && has_key(#[trigger] records[i], kind, name),
        lookup(records, kind, name) matches Some(addr) ==> exists|i: int|
            0 <= i < records.len() && has_key(#[trigger] records[i], kind, name) && records[i].addr
                == addr,
        (forall|i: int|
            0 <= i < records.len() && (#[trigger] records[i]).name == name ==> records[i].kind
                != kind) ==> lookup(records, kind, name) is None,
{
    lemma_first_match(records, kind, name, 0);
    let at = first_match(records, kind, name, 0);
    if at < records.len() {
        assert(has_key(records[at], kind, name));
    }
}

/// No symbol read from a list is at address zero.
pub proof fn lemma_no_zero_address(s: Seq<u8>, pos: int)
    ensures
        forall|i: int|
            0 <= i < parse_records(s, pos).len() ==> (#[trigger] parse_records(s, pos)[i]).addr
                != 0,
    decreases s.len() + 1 - pos,
{
    if 0 <= pos < s.len() {
        let end = first_in(s, ByteClass::Byte(0x0a), pos, s.len() as int);
        lemma_first_in(s, ByteClass::Byte(0x0a), pos, s.len() as int);
        if let Some(record) = parse_line(s, pos, end) {
            lemma_no_zero_address(s, end + 1);
            let rest = parse_records(s, end + 1);
            assert forall|i: int| 0 <= i < parse_records(s, pos).len() implies (
            #[trigger] parse_records(s, pos)[i]).addr != 0 by {
                if record.addr != 0 && i > 0 {
                    assert((seq![record] + rest)[i] == rest[i - 1]);
                }
            }
        }
    }
}

/// Looking a name up in the symbols that a list holds never gives address
/// zero, whichever kind is asked for.
pub proof fn lemma_lookup_never_zero(s: Seq<u8>, kind: u8, name: Seq<u8>)
    ensures
        lookup(parse_records(s, 0), kind, name) != Some(0usize),
{
    lemma_no_zero_address(s, 0);
    lemma_first_match(parse_records(s, 0), kind, name, 0);
}

/// Compares a symbol's kind and name with a given kind and name.
fn compare_to_key(sym: &Ksym, kind: u8, name: &[u8]) -> (order: Order)
    ensures
        order == key_order(sym@, SymbolRecord { name: name@, kind, addr: 0 }),
{
    if sym.kind < kind {
        Order::Less
    } else if sym.kind > kind {
        Order::Greater
    } else {
        compare_bytes(sym.name.as_slice(), name)
    }
}

/// The kernel's symbols, with an index by kind and name.
pub struct KSymResolver {
    syms: Vec<Ksym>,
    order: Vec<usize>,
}

impl KSymResolver {
    #[verifier::type_invariant]
    spec fn well_formed(self) -> bool {
        &&& indexes(records_of(self.syms@), self.order@, 0, self.syms.len() as int)
        &&& forall|i: int| 0 <= i < self.syms.len() ==> (#[trigger] self.syms[i])@.addr != 0
    }

    /// The symbols, in the order of the list they were read from.
    pub closed spec fn records(&self) -> Seq<SymbolRecord> {
        records_of(self.syms@)
    }

    /// Reads the kernel's symbol list.
    pub fn new(text: &[u8]) -> (table: Self)
        ensures
            table.records() == parse_records(text@, 0),
    {
        let syms = read_records(text);
        let order = index_range(&syms, 0, syms.len());
        KSymResolver { syms, order }
    }

    /// The address of the symbol `sym` of the given kind.
    pub fn find_ksym(&self, sym: &str, kind: u8) -> (addr: Option<usize>)
        ensures
            addr == lookup(self.records(), kind, sym.spec_bytes()),
            addr != Some(0usize),
    {
        proof {
            use_type_invariant(self);
        }
        let name = sym.as_bytes();
        let ghost recs = records_of(self.syms@);
        let ghost probe = SymbolRecord { name: name@, kind, addr: 0 };
        let mut lo: usize = 0;
        let mut hi: usize = self.order.len();
        while lo < hi
            invariant
                recs == records_of(self.syms@),
                name@ == sym.spec_bytes(),
                probe == (SymbolRecord { name: name@, kind, addr: 0 }),
                indexes(recs, self.order@, 0, self.syms.len() as int),
                forall|i: int| 0 <= i < self.syms.len() ==> (#[trigger] self.syms[i])@.addr != 0,
                lo <= hi <= self.order.len(),
                forall|x: int|
                    0 <= x < lo ==> key_order(
                        recs[#[trigger] self.order@[x] as int],
                        probe,
                    ) is Less,
                forall|x: int|
                    hi <= x < self.order.len() ==> key_order(
                        recs[#[trigger] self.order@[x] as int],
                        probe,
                    ) is Greater,
            decreases hi - lo,
        {
            let mid = lo + (hi - lo) / 2;
            let at = self.order[mid];
            let ghost rec = recs[at as int];
            match compare_to_key(&self.syms[at], kind, name) {
                Order::Less => {
                    proof {
                        assert forall|x: int| 0 <= x < mid + 1 implies key_order(
                            recs[#[trigger] self.order@[x] as int],
                            probe,
                        ) is Less by {
                            if x < mid {
                                lemma_key_order(recs[self.order@[x] as int], rec, probe);
                            }
                        }
                    }
                    lo = mid + 1;
                },
                Order::Greater => {
                    proof {
                        assert forall|x: int| mid <= x < self.order.len() implies key_order(
                            recs[#[trigger] self.order@[x] as int],
                            probe,
                        ) is Greater by {
                            if x > mid {
                                let later = recs[self.order@[x] as int];
                                lemma_key_order(probe, rec, later);
                                lemma_key_order(rec, probe, probe);
                                lemma_key_order(later, probe, probe);
                            }
                        }
                    }
                    hi = mid;
                },
                Order::Equal => {
                    proof {
                        lemma_key_order(rec, probe, probe);
                        assert(is_first(recs, 0, at as int));
                        assert forall|k: int| 0 <= k < at implies !has_key(
                            #[trigger] recs[k],
                            kind,
                            name@,
                        ) by {
                            assert(!same_key(recs[k], rec));
                        }
                        lemma_first_match_is(recs, kind, name@, 0, at as int);
                        assert(rec == self.syms@[at as int]@);
                    }
                    return Some(self.syms[at].addr);
                },
            }
        }
        proof {
            assert forall|m: int| 0 <= m < recs.len() implies !has_key(
                #[trigger] recs[m],
                kind,
                name@,
            ) by {
                assert(listed(recs, self.order@, m));
                let x = choose|x: int|
                    0 <= x < self.order.len() && same_key(
                        recs[#[trigger] self.order@[x] as int],
                        recs[m],
                    );
                lemma_key_order(recs[self.order@[x] as int], probe, probe);
            }
            lemma_first_match_is(recs, kind, name@, 0, recs.len() as int);
        }
        None
    }
}

} // verus!
