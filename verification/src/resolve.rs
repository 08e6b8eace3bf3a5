//! From what the user asks for to an address and a breakpoint.
//!
//! The watch expression is resolved by the first strategy that applies: a
//! hexadecimal literal is the address itself; with a root object the
//! expression is a field path from that object; with a debug image it is a
//! symbol of that image; otherwise it is a symbol of the running kernel,
//! a function for an execute breakpoint and a data symbol for the others.

use vstd::prelude::*;
use vstd::string::{StringExecFns, StringSliceAdditionalSpecFns};
use crate::ksym::{KSymResolver, KSYM_DATA, KSYM_FUNC, lookup, parse_records};
use crate::perf::{HW_BREAKPOINT_R, HW_BREAKPOINT_RW, HW_BREAKPOINT_W, HW_BREAKPOINT_X};
use crate::utils::{hex_literal, hexstr2int};

verus! {

/// The kind and width of a watchpoint: read, write, read-write or execute,
/// on 1, 2, 4 or 8 bytes.
#[derive(Debug, Clone, Copy, PartialEq, Eq)]
pub enum BpType {
    R1,
    W1,
    RW1,
    X1,
    R2,
    W2,
    RW2,
    X2,
    R4,
    W4,
    RW4,
    X4,
    R8,
    W8,
    RW8,
    X8,
}

/// The width of a watchpoint in bytes.
pub open spec fn bp_len_of(bp: BpType) -> u64 {
    match bp {
        BpType::R1 | BpType::W1 | BpType::RW1 | BpType::X1 => 1,
        BpType::R2 | BpType::W2 | BpType::RW2 | BpType::X2 => 2,
        BpType::R4 | BpType::W4 | BpType::RW4 | BpType::X4 => 4,
        BpType::R8 | BpType::W8 | BpType::RW8 | BpType::X8 => 8,
    }
}

/// The access kind of a watchpoint, as the breakpoint facility numbers it.
pub open spec fn bp_type_of(bp: BpType) -> u32 {
    match bp {
        BpType::X1 | BpType::X2 | BpType::X4 | BpType::X8 => HW_BREAKPOINT_X,
        BpType::R1 | BpType::R2 | BpType::R4 | BpType::R8 => HW_BREAKPOINT_R,
        BpType::W1 | BpType::W2 | BpType::W4 | BpType::W8 => HW_BREAKPOINT_W,
        BpType::RW1 | BpType::RW2 | BpType::RW4 | BpType::RW8 => HW_BREAKPOINT_RW,
    }
}

/// The access kind and the width of a watchpoint.
pub fn parse_bp(bp: BpType) -> (kind_and_len: (u32, u64))
    ensures
        kind_and_len == (bp_type_of(bp), bp_len_of(bp)),
        crate::perf::valid_breakpoint(kind_and_len.0, kind_and_len.1),
{
    let bp_len: u64 = match bp {
        BpType::R1 | BpType::W1 | BpType::RW1 | BpType::X1 => 1,
        BpType::R2 | BpType::W2 | BpType::RW2 | BpType::X2 => 2,
        BpType::R4 | BpType::W4 | BpType::RW4 | BpType::X4 => 4,
        BpType::R8 | BpType::W8 | BpType::RW8 | BpType::X8 => 8,
    };
    let bp_type: u32 = match bp {
        BpType::X1 | BpType::X2 | BpType::X4 | BpType::X8 => HW_BREAKPOINT_X,
        BpType::R1 | BpType::R2 | BpType::R4 | BpType::R8 => HW_BREAKPOINT_R,
        BpType::W1 | BpType::W2 | BpType::W4 | BpType::W8 => HW_BREAKPOINT_W,
        BpType::RW1 | BpType::RW2 | BpType::RW4 | BpType::RW8 => HW_BREAKPOINT_RW,
    };
    (bp_type, bp_len)
}

/// Why an expression has no address.
#[derive(Debug, Clone, Copy, PartialEq, Eq)]
pub enum ResolveError {
    /// No symbol of that name and kind exists.
    NotFound,
    /// The debug image holds this many symbols of that name, not one.
    NotUnique(usize),
}

/// The way in which an expression is to be resolved.
#[derive(Debug, Clone, Copy, PartialEq, Eq)]
pub enum Strategy {
    /// The expression is this address, written in hexadecimal.
    Literal(usize),
    /// The expression is a field path from the root object.
    FieldPath,
    /// The expression is a symbol of the debug image.
    DebugImage,
    /// The expression is a symbol of this kind of the running kernel.
    LiveSymbol(u8),
}

/// The kind of kernel symbol that a breakpoint of this access kind watches:
/// a function where it watches execution, data otherwise.
pub open spec fn symbol_kind_of(bp_type: u32) -> u8 {
    if bp_type == HW_BREAKPOINT_X {
        KSYM_FUNC
    } else {
        KSYM_DATA
    }
}

/// The first strategy that applies to `expr`.
pub open spec fn strategy_of(expr: Seq<u8>, bp_type: u32, rooted: bool, has_image: bool)
    -> Strategy {
    match hex_literal(expr) {
        Some(addr) => Strategy::Literal(addr),
        None => if rooted {
            Strategy::FieldPath
        } else if has_image {
            Strategy::DebugImage
        } else {
            Strategy::LiveSymbol(symbol_kind_of(bp_type))
        },
    }
}

/// The kind of kernel symbol that a breakpoint of this access kind watches.
pub fn symbol_kind(bp_type: u32) -> (kind: u8)
    ensures
        kind == symbol_kind_of(bp_type),
{
    if bp_type == HW_BREAKPOINT_X {
        KSYM_FUNC
    } else {
        KSYM_DATA
    }
}

/// Chooses how to resolve `expr`, given whether a root object for field
/// paths and whether a debug image were named.
pub fn parse_addr(expr: &str, bp_type: u32, rooted: bool, has_image: bool) -> (strategy: Strategy)
    ensures
        strategy == strategy_of(expr.spec_bytes(), bp_type, rooted, has_image),
{
    match hexstr2int(expr) {
        Some(addr) => Strategy::Literal(addr),
        None => if rooted {
            Strategy::FieldPath
        } else if has_image {
            Strategy::DebugImage
        } else {
            Strategy::LiveSymbol(symbol_kind(bp_type))
        },
    }
}

/// Looks `sym` up in the symbol list of the running kernel, `kallsyms`, as a
/// function for an execute breakpoint and as data for any other.
pub fn ksym2addr(kallsyms: &[u8], sym: &str, bp: u32) -> (addr: Result<usize, ResolveError>)
    ensures
        match lookup(parse_records(kallsyms@, 0), symbol_kind_of(bp), sym.spec_bytes()) {
            Some(a) => addr == Ok::<usize, ResolveError>(a),
            None => addr == Err::<usize, ResolveError>(ResolveError::NotFound),
        },
        addr != Ok::<usize, ResolveError>(0),
{
    let kresolver = KSymResolver::new(kallsyms);
    match kresolver.find_ksym(sym, symbol_kind(bp)) {
        Some(addr) => Ok(addr),
        None => Err(ResolveError::NotFound),
    }
}

/// The address of a symbol of the debug image, given the addresses of all
/// symbols of its name there: the one address, if there is exactly one.
pub fn vmlinux2addr(results: &Vec<usize>) -> (addr: Result<usize, ResolveError>)
    ensures
        addr == if results.len() == 1 {
            Ok::<usize, ResolveError>(results[0])
        } else if results.len() == 0 {
            Err::<usize, ResolveError>(ResolveError::NotFound)
        } else {
            Err::<usize, ResolveError>(ResolveError::NotUnique(results.len()))
        },
{
    if results.len() == 1 {
        Ok(results[0])
    } else if results.len() == 0 {
        Err(ResolveError::NotFound)
    } else {
        Err(ResolveError::NotUnique(results.len()))
    }
}

/// The message that reports why `expr` has no address.
pub open spec fn failure_text(expr: Seq<char>) -> Seq<char> {
    "Failed to get address of symbol "@ + expr
}

/// Formats the message that reports why `expr` has no address.
pub fn failure_message(expr: &str) -> (s: String)
    ensures
        s@ == failure_text(expr@),
{
    let mut s = String::from_str("Failed to get address of symbol ");
    s.append(expr);
    s
}

/// The kernel object at which a field path begins: the task of a process,
/// or a device on the PCI, USB or platform bus, known by its name.
#[derive(Debug, Clone, PartialEq, Eq)]
pub enum Root {
    Task(u64),
    PciDev(String),
    UsbDev(String),
    PlatDev(String),
}

/// The root that counts where several were named: a task before a PCI
/// device, that before a USB device, that before a platform device.
pub open spec fn root_of(
    pid_task: Option<u64>,
    pci_dev: Option<String>,
    usb_dev: Option<String>,
    plat_dev: Option<String>,
) -> Option<Root> {
    match (pid_task, pci_dev, usb_dev, plat_dev) {
        (Some(pid), _, _, _) => Some(Root::Task(pid)),
        (None, Some(dev), _, _) => Some(Root::PciDev(dev)),
        (None, None, Some(dev), _) => Some(Root::UsbDev(dev)),
        (None, None, None, Some(dev)) => Some(Root::PlatDev(dev)),
        (None, None, None, None) => None,
    }
}

/// Chooses the root of a field path among those that were named.
pub fn select_root(
    pid_task: Option<u64>,
    pci_dev: Option<String>,
    usb_dev: Option<String>,
    plat_dev: Option<String>,
) -> (root: Option<Root>)
    ensures
        root == root_of(pid_task, pci_dev, usb_dev, plat_dev),
{
    match (pid_task, pci_dev, usb_dev, plat_dev) {
        (Some(pid), _, _, _) => Some(Root::Task(pid)),
        (None, Some(dev), _, _) => Some(Root::PciDev(dev)),
        (None, None, Some(dev), _) => Some(Root::UsbDev(dev)),
        (None, None, None, Some(dev)) => Some(Root::PlatDev(dev)),
        (None, None, None, None) => None,
    }
}

/// The bus of a device root and the kernel's type of a device on it; `None`
/// for a task.
pub fn device_bus(root: &Root) -> (bus: Option<(&'static str, &'static str)>)
    ensures
        bus == match root {
            Root::Task(_) => None::<(&'static str, &'static str)>,
            Root::PciDev(_) => Some(("pci", "struct pci_dev")),
            Root::UsbDev(_) => Some(("usb", "struct usb_device")),
            Root::PlatDev(_) => Some(("platform", "struct platform_device")),
        },
{
    match root {
        Root::Task(_) => None,
        Root::PciDev(_) => Some(("pci", "struct pci_dev")),
        Root::UsbDev(_) => Some(("usb", "struct usb_device")),
        Root::PlatDev(_) => Some(("platform", "struct platform_device")),
    }
}

} // verus!
