//! Encoding of `ioctl` request numbers, as laid out by the Linux headers:
//! eight bits of command number, eight bits of type, fourteen bits of argument
//! size and two bits of direction, from the least significant bit upwards.

use vstd::layout::{layout_of_primitives, size_of};
use vstd::prelude::*;

verus! {

pub const _IOC_NRBITS: u64 = 8;

pub const _IOC_TYPEBITS: u64 = 8;

pub const _IOC_SIZEBITS: u64 = 14;

pub const _IOC_DIRBITS: u64 = 2;

pub const _IOC_NRMASK: u64 = 0xff;

pub const _IOC_TYPEMASK: u64 = 0xff;

pub const _IOC_SIZEMASK: u64 = 0x3fff;

pub const _IOC_DIRMASK: u64 = 0x3;

pub const _IOC_NRSHIFT: u64 = 0;

pub const _IOC_TYPESHIFT: u64 = 8;

pub const _IOC_SIZESHIFT: u64 = 16;

pub const _IOC_DIRSHIFT: u64 = 30;

pub const _IOC_NONE: u64 = 0;

pub const _IOC_WRITE: u64 = 1;

pub const _IOC_READ: u64 = 2;

/// Type byte of every perf-event request: the character `$`.
pub const PERF_EVENT_IOC_MAGIC: u8 = 0x24;

/// `_IO('$', 0)`: enable the event.
pub const PERF_EVENT_IOC_ENABLE: u64 = 0x2400;

/// `_IO('$', 3)`: reset the event's counter.
pub const PERF_EVENT_IOC_RESET: u64 = 0x2403;

/// `_IOW('$', 8, u32)`: attach a BPF program to the event.
pub const PERF_EVENT_IOC_SET_BPF: u64 = 0x4004_2408;

/// The four fields of a request number are within the widths of their slots.
pub open spec fn ioc_fields_valid(dir: u64, ty: u8, nr: u64, size: usize) -> bool {
    dir <= _IOC_DIRMASK && nr <= _IOC_NRMASK && size <= _IOC_SIZEMASK
}

/// The request number that carries the four fields, each in its slot.
pub open spec fn ioc_encode(dir: u64, ty: u8, nr: u64, size: usize) -> u64 {
    (dir << _IOC_DIRSHIFT) | ((ty as u64) << _IOC_TYPESHIFT) | (nr << _IOC_NRSHIFT) | ((size as u64)
        << _IOC_SIZESHIFT)
}

pub open spec fn ioc_dir(req: u64) -> u64 {
    (req >> _IOC_DIRSHIFT) & _IOC_DIRMASK
}

pub open spec fn ioc_type(req: u64) -> u8 {
    ((req >> _IOC_TYPESHIFT) & _IOC_TYPEMASK) as u8
}

pub open spec fn ioc_nr(req: u64) -> u64 {
    (req >> _IOC_NRSHIFT) & _IOC_NRMASK
}

pub open spec fn ioc_size(req: u64) -> usize {
    ((req >> _IOC_SIZESHIFT) & _IOC_SIZEMASK) as usize
}

/// Builds a request number from direction, type, command number and argument size.
#[allow(non_snake_case)]
pub fn _IOC(dir: u64, ty: u8, nr: u64, size: usize) -> (req: u64)
    ensures
        req == ioc_encode(dir, ty, nr, size),
{
    (dir << _IOC_DIRSHIFT) | ((ty as u64) << _IOC_TYPESHIFT) | (nr << _IOC_NRSHIFT) | ((size as u64)
        << _IOC_SIZESHIFT)
}

/// A request that carries no argument.
#[allow(non_snake_case)]
pub fn _IO(ty: u8, nr: u64) -> (req: u64)
    ensures
        req == ioc_encode(_IOC_NONE, ty, nr, 0),
{
    _IOC(_IOC_NONE, ty, nr, 0)
}

/// A request whose argument, a `T`, is read back from the kernel.
#[allow(non_snake_case)]
pub fn _IOR<T>(ty: u8, nr: u64) -> (req: u64)
    ensures
        req == ioc_encode(_IOC_READ, ty, nr, size_of::<T>() as usize),
{
    _IOC(_IOC_READ, ty, nr, core::mem::size_of::<T>())
}

/// A request whose argument, a `T`, is written to the kernel.
#[allow(non_snake_case)]
pub fn _IOW<T>(ty: u8, nr: u64) -> (req: u64)
    ensures
        req == ioc_encode(_IOC_WRITE, ty, nr, size_of::<T>() as usize),
{
    _IOC(_IOC_WRITE, ty, nr, core::mem::size_of::<T>())
}

/// The direction bits of a request number.
#[allow(non_snake_case)]
pub fn _IOC_DIR(req: u64) -> (dir: u64)
    ensures
        dir == ioc_dir(req),
        dir <= _IOC_DIRMASK,
{
    let dir: u64 = (req >> _IOC_DIRSHIFT) & _IOC_DIRMASK;
    assert((req >> 30u64) & 0x3u64 <= 0x3u64) by (bit_vector);
    dir
}

/// The type byte of a request number.
#[allow(non_snake_case)]
pub fn _IOC_TYPE(req: u64) -> (ty: u8)
    ensures
        ty == ioc_type(req),
{
    let masked: u64 = (req >> _IOC_TYPESHIFT) & _IOC_TYPEMASK;
    masked as u8
}

/// The command number of a request number.
#[allow(non_snake_case)]
pub fn _IOC_NR(req: u64) -> (nr: u64)
    ensures
        nr == ioc_nr(req),
        nr <= _IOC_NRMASK,
{
    let nr: u64 = (req >> _IOC_NRSHIFT) & _IOC_NRMASK;
    assert((req >> 0u64) & 0xffu64 <= 0xffu64) by (bit_vector);
    nr
}

/// The argument size of a request number.
#[allow(non_snake_case)]
pub fn _IOC_SIZE(req: u64) -> (size: usize)
    ensures
        size == ioc_size(req),
        size <= _IOC_SIZEMASK,
{
    let masked: u64 = (req >> _IOC_SIZESHIFT) & _IOC_SIZEMASK;
    assert((req >> 16u64) & 0x3fffu64 <= 0x3fffu64) by (bit_vector);
    masked as usize
}

/// Decoding a request number that was built from fields within their widths
/// gives back each of the four fields.
pub proof fn lemma_ioc_round_trip(dir: u64, ty: u8, nr: u64, size: usize)
    requires
        ioc_fields_valid(dir, ty, nr, size),
    ensures
        ioc_dir(ioc_encode(dir, ty, nr, size)) == dir,
        ioc_type(ioc_encode(dir, ty, nr, size)) == ty,
        ioc_nr(ioc_encode(dir, ty, nr, size)) == nr,
        ioc_size(ioc_encode(dir, ty, nr, size)) == size,
{
    let t: u64 = ty as u64;
    let s: u64 = size as u64;
    let req: u64 = (dir << 30u64) | (t << 8u64) | (nr << 0u64) | (s << 16u64);
    assert(((req >> 30u64) & 0x3u64) == dir && ((req >> 8u64) & 0xffu64) == t && ((req >> 0u64)
        & 0xffu64) == nr && ((req >> 16u64) & 0x3fffu64) == s) by (bit_vector)
        requires
            req == (dir << 30u64) | (t << 8u64) | (nr << 0u64) | (s << 16u64),
            dir <= 0x3u64,
            t <= 0xffu64,
            nr <= 0xffu64,
            s <= 0x3fffu64,
    ;
}

/// With fields within their widths the slots do not overlap, so the request
/// number is the sum of the fields, each scaled to its slot.
pub proof fn lemma_ioc_encode_is_sum(dir: u64, ty: u8, nr: u64, size: usize)
    requires
        ioc_fields_valid(dir, ty, nr, size),
    ensures
        ioc_encode(dir, ty, nr, size) == dir * 0x4000_0000 + size * 0x1_0000 + ty * 0x100 + nr,
{
    let t: u64 = ty as u64;
    let s: u64 = size as u64;
    let req: u64 = (dir << 30u64) | (t << 8u64) | (nr << 0u64) | (s << 16u64);
    assert(req == dir * 0x4000_0000u64 + s * 0x1_0000u64 + t * 0x100u64 + nr) by (bit_vector)
        requires
            req == (dir << 30u64) | (t << 8u64) | (nr << 0u64) | (s << 16u64),
            dir <= 0x3u64,
            t <= 0xffu64,
            nr <= 0xffu64,
            s <= 0x3fffu64,
    ;
}

/// The three perf-event requests are the encodings that the kernel headers give them.
pub proof fn lemma_perf_event_requests()
    ensures
        PERF_EVENT_IOC_ENABLE == ioc_encode(_IOC_NONE, PERF_EVENT_IOC_MAGIC, 0, 0),
        PERF_EVENT_IOC_RESET == ioc_encode(_IOC_NONE, PERF_EVENT_IOC_MAGIC, 3, 0),
        PERF_EVENT_IOC_SET_BPF == ioc_encode(
            _IOC_WRITE,
            PERF_EVENT_IOC_MAGIC,
            8,
            size_of::<u32>() as usize,
        ),
{
    broadcast use layout_of_primitives;
    lemma_ioc_encode_is_sum(_IOC_NONE, PERF_EVENT_IOC_MAGIC, 0, 0);
    lemma_ioc_encode_is_sum(_IOC_NONE, PERF_EVENT_IOC_MAGIC, 3, 0);
    lemma_ioc_encode_is_sum(_IOC_WRITE, PERF_EVENT_IOC_MAGIC, 8, 4);
}

} // verus!
