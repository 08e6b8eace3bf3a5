//! Records that the kernel-side program writes to the ring buffer.
//!
//! Every record begins with an envelope of forty bytes: three machine words
//! (the record's id, its type and the id of the thread that hit the
//! watchpoint) and the sixteen bytes of that thread's command name. What
//! follows the envelope depends on the type.

pub mod data;
pub mod stack;

use vstd::prelude::*;
use vstd::string::StringExecFns;
use crate::msg::stack::{StackError, is_stack, stack_msg_handler, stack_size_at, STACK_MSG_SIZE};
use crate::render::{digits, push_digits};
use crate::text::{ByteClass, Radix, first_in, lemma_first_in, push_char};
use crate::utils::{cast, is_word, word_bytes};

verus! {

/// The type of a record that holds a captured stack.
pub const MSG_TYPE_STACK: u64 = 0;

/// Length of a command name in the envelope.
pub const TASK_COMM_LEN: usize = 16;

/// Size of the envelope in bytes.
pub const MSG_ENT_SIZE: usize = 40;

/// The status that tells the poller of the ring buffer to go on.
pub const POLL_CONTINUE: i32 = 0;

/// The envelope of a record.
#[derive(Debug, Clone, Copy, PartialEq, Eq)]
pub struct MsgEnt {
    pub id: u64,
    pub typ: u64,
    pub pid: u64,
    pub cmd: [u8; TASK_COMM_LEN],
}

/// `ent` is the envelope at the start of `s`: its words in the byte order of
/// the machine, its command name byte for byte.
pub open spec fn is_envelope(s: Seq<u8>, ent: MsgEnt) -> bool {
    &&& s.len() >= MSG_ENT_SIZE
    &&& is_word(word_bytes(s, 0), ent.id)
    &&& is_word(word_bytes(s, 8), ent.typ)
    &&& is_word(word_bytes(s, 16), ent.pid)
    &&& ent.cmd@ == s.subrange(24, 40)
}

/// Reads the envelope of a record. There is one if and only if the record
/// has forty bytes or more.
pub fn read_envelope(bytes: &[u8]) -> (ent: Option<MsgEnt>)
    ensures
        ent is Some <==> bytes@.len() >= MSG_ENT_SIZE,
        ent matches Some(e) ==> is_envelope(bytes@, e),
{
    if bytes.len() < MSG_ENT_SIZE {
        return None;
    }
    let id = cast(bytes, 0);
    let typ = cast(bytes, 8);
    let pid = cast(bytes, 16);
    match (id, typ, pid) {
        (Some(id), Some(typ), Some(pid)) => {
            let mut cmd: [u8; TASK_COMM_LEN] = [0u8; TASK_COMM_LEN];
            let mut i: usize = 0;
            while i < TASK_COMM_LEN
                invariant
                    i <= TASK_COMM_LEN,
                    bytes@.len() >= MSG_ENT_SIZE,
                    forall|k: int| 0 <= k < i ==> cmd@[k] == bytes@[24 + k],
                decreases TASK_COMM_LEN - i,
            {
                cmd[i] = bytes[24 + i];
                i += 1;
            }
            assert(cmd@ =~= bytes@.subrange(24, 40));
            Some(MsgEnt { id, typ, pid, cmd })
        },
        _ => None,
    }
}

/// The number of bytes of a command name: those before its first zero byte.
pub open spec fn cmd_len(buf: Seq<u8>) -> int {
    first_in(buf, ByteClass::Byte(0), 0, buf.len() as int)
}

/// A command name as text: between double quotes the bytes before the first
/// zero byte, each as the character of its number; behind them three dots
/// where the buffer holds no zero byte, since the name may then be cut off.
pub open spec fn cmd_text(buf: Seq<u8>) -> Seq<char> {
    seq!['"'] + Seq::new(cmd_len(buf) as nat, |i: int| buf[i] as char) + seq!['"'] + if cmd_len(buf)
        >= buf.len() {
        seq!['.', '.', '.']
    } else {
        Seq::empty()
    }
}

/// Formats the command name of an envelope.
pub fn format_cmd(buf: &[u8; TASK_COMM_LEN]) -> (s: String)
    ensures
        s@ == cmd_text(buf@),
{
    let len = buf.len();
    let mut idx: usize = 0;
    let mut s = String::new();
    push_char(&mut s, '"');
    let ghost end = cmd_len(buf@);
    proof {
        lemma_first_in(buf@, ByteClass::Byte(0), 0, buf@.len() as int);
    }
    while idx < len && buf[idx] != 0
        invariant
            len == buf@.len(),
            idx <= end <= len,
            end == cmd_len(buf@),
            forall|i: int| 0 <= i < end ==> buf@[i] != 0,
            end < len ==> buf@[end] == 0,
            s@ == seq!['"'] + Seq::new(idx as nat, |i: int| buf@[i] as char),
        decreases len - idx,
    {
        let c = buf[idx];
        push_char(&mut s, c as char);
        idx += 1;
    }
    push_char(&mut s, '"');
    if idx >= len {
        push_char(&mut s, '.');
        push_char(&mut s, '.');
        push_char(&mut s, '.');
    }
    s
}

/// The line that announces a record: `Get message id=<id>, pid=<pid> (<cmd>)`,
/// the numbers in decimal, the command name as `cmd_text` writes it.
pub open spec fn header_text(ent: MsgEnt) -> Seq<char> {
    "Get message id="@ + digits(ent.id as nat, 10) + ", pid="@ + digits(ent.pid as nat, 10)
        + " ("@ + cmd_text(ent.cmd@) + ")"@
}

/// Formats the line that announces a record.
pub fn format_header(ent: &MsgEnt) -> (s: String)
    ensures
        s@ == header_text(*ent),
{
    let mut s = String::from_str("Get message id=");
    push_digits(&mut s, ent.id, Radix::Decimal);
    s.append(", pid=");
    push_digits(&mut s, ent.pid, Radix::Decimal);
    s.append(" (");
    let cmd = format_cmd(&ent.cmd);
    s.append(cmd.as_str());
    s.append(")");
    s
}

/// What a record holds.
#[derive(Debug, Clone, PartialEq, Eq)]
pub enum Record {
    /// A captured stack: the instruction addresses of its frames, innermost first.
    Stack { ent: MsgEnt, frames: Vec<u64> },
    /// A record of a type that is not known here. It is passed over.
    Unknown { ent: MsgEnt },
    /// A record that is shorter than an envelope, or whose payload is not
    /// what its type requires.
    Malformed,
}

/// Decodes one record of the ring buffer: the envelope, then by its type the
/// payload. The words are read in the byte order of the machine.
pub fn msg_handler(bytes: &[u8]) -> (record: Record)
    ensures
        bytes@.len() < MSG_ENT_SIZE ==> record is Malformed,
        record matches Record::Stack { ent, frames } ==> {
            &&& is_envelope(bytes@, ent)
            &&& ent.typ == MSG_TYPE_STACK
            &&& is_stack(bytes@.skip(MSG_ENT_SIZE as int), frames@)
        },
        record matches Record::Unknown { ent } ==> is_envelope(bytes@, ent) && ent.typ
            != MSG_TYPE_STACK,
        record is Malformed && bytes@.len() >= MSG_ENT_SIZE ==> exists|ent: MsgEnt|
            {
                &&& #[trigger] is_envelope(bytes@, ent)
                &&& ent.typ == MSG_TYPE_STACK
                &&& bytes@.len() < MSG_ENT_SIZE + STACK_MSG_SIZE || exists|size: u64|
                    #[trigger] stack_size_at(bytes@.skip(MSG_ENT_SIZE as int), size) && size / 8
                        > 127
            },
{
    match read_envelope(bytes) {
        None => Record::Malformed,
        Some(ent) => {
            if ent.typ == MSG_TYPE_STACK {
                let inner = vstd::slice::slice_subrange(bytes, MSG_ENT_SIZE, bytes.len());
                match stack_msg_handler(inner) {
                    Ok(frames) => Record::Stack { ent, frames },
                    Err(StackError::TooShort) => Record::Malformed,
                    Err(StackError::TooDeep(size)) => Record::Malformed,
                }
            } else {
                Record::Unknown { ent }
            }
        },
    }
}

} // verus!
