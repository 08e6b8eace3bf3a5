//! The record of the value-watch mode: an address and the value found there.

use vstd::prelude::*;
use vstd::string::StringExecFns;
use crate::render::{digits, push_digits};
use crate::text::Radix;
use crate::utils::{cast, is_word, word_bytes};

verus! {

/// Size of a value record in bytes.
pub const DATA_MSG_SIZE: usize = 16;

/// An address and the value that was found there.
#[derive(Debug, Clone, Copy, PartialEq, Eq)]
pub struct DataMsg {
    pub addr: u64,
    pub val: u64,
}

/// `msg` is the value record at the start of `s`.
pub open spec fn is_data(s: Seq<u8>, msg: DataMsg) -> bool {
    &&& s.len() >= DATA_MSG_SIZE
    &&& is_word(word_bytes(s, 0), msg.addr)
    &&& is_word(word_bytes(s, 8), msg.val)
}

/// Decodes a value record. There is one if and only if sixteen bytes or
/// more are given.
pub fn data_msg_handler(bytes: &[u8]) -> (msg: Option<DataMsg>)
    ensures
        msg is Some <==> bytes@.len() >= DATA_MSG_SIZE,
        msg matches Some(m) ==> is_data(bytes@, m),
{
    match (cast(bytes, 0), cast(bytes, 8)) {
        (Some(addr), Some(val)) => Some(DataMsg { addr, val }),
        _ => None,
    }
}

/// The line that shows a value record: `data@0x<addr> = <val>`, both in
/// hexadecimal.
pub open spec fn data_text(msg: DataMsg) -> Seq<char> {
    "data@0x"@ + digits(msg.addr as nat, 16) + " = "@ + digits(msg.val as nat, 16)
}

/// Formats the line that shows a value record.
pub fn format_data(msg: &DataMsg) -> (s: String)
    ensures
        s@ == data_text(*msg),
{
    let mut s = String::from_str("data@0x");
    push_digits(&mut s, msg.addr, Radix::Hex);
    s.append(" = ");
    push_digits(&mut s, msg.val, Radix::Hex);
    s
}

} // verus!
