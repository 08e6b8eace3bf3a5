//! Control and decoding plane of a kernel watchpoint tool.
//!
//! The tool programs a hardware breakpoint on a kernel address and prints
//! what a kernel-side program reports each time the breakpoint is hit. This
//! crate holds its decisions, each with a contract that Verus proves:
//!
//! - [`resolve`] chooses how a watch expression becomes an address, with
//!   [`utils`] for hexadecimal literals, [`ksym`] for the symbols of the
//!   running kernel, and [`kexpr`] with its [`lexer`] for field paths from a
//!   kernel object;
//! - [`perf`] describes the breakpoint and decides the system calls that
//!   attach it to every online CPU, with the request numbers of [`ioctl`];
//! - [`msg`] decodes the records of the ring buffer and formats the lines
//!   that show them.
//!
//! Nothing here reads a file, makes a system call or prints: the caller does,
//! and hands over what it has read.

pub mod ioctl;
pub mod kexpr;
pub mod ksym;
pub mod ksym_order;
pub mod lexer;
pub mod msg;
pub mod order;
pub mod perf;
pub mod render;
pub mod resolve;
pub mod text;
pub mod utils;
