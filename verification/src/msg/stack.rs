//! The record of a captured stack, and the lines that show its frames.
//!
//! The payload is one machine word, the number of bytes that were captured,
//! and an array of 127 machine words. Only the first `bytes / 8` words of the
//! array are frames; the others hold whatever was there before.

use vstd::prelude::*;
use vstd::string::StringExecFns;
use crate::render::{
    digits,
    hex_padded,
    hex_prefixed,
    push_digits,
    push_hex_padded,
    push_hex_prefixed,
    push_repeat,
    repeat,
};
use crate::text::{Radix, push_char};
use crate::utils::{cast, is_word, word_bytes};

verus! {

/// The number of frames that a record has room for.
pub const PERF_MAX_STACK_DEPTH: usize = 127;

/// Size of a stack record in bytes.
pub const STACK_MSG_SIZE: usize = 1024;

/// Width to which the address of a frame is filled.
pub const ADDR_WIDTH: usize = 16;

/// Why a payload holds no stack.
#[derive(Debug, Clone, Copy, PartialEq, Eq)]
pub enum StackError {
    /// The payload is shorter than a stack record.
    TooShort,
    /// The record claims this many captured bytes, more than it has room for.
    TooDeep(u64),
}

/// The number of frames in `size` captured bytes, if a record has room for them.
pub open spec fn frame_count(size: u64) -> Option<nat> {
    if size / 8 <= PERF_MAX_STACK_DEPTH {
        Some((size / 8) as nat)
    } else {
        None
    }
}

/// The number of frames in `kstack_sz` captured bytes.
pub fn stack_depth(kstack_sz: u64) -> (depth: Option<usize>)
    ensures
        match frame_count(kstack_sz) {
            Some(n) => depth == Some(n as usize),
            None => depth is None,
        },
{
    let depth = kstack_sz / 8;
    if depth <= PERF_MAX_STACK_DEPTH as u64 {
        Some(depth as usize)
    } else {
        None
    }
}

/// `size` is the first word of the stack record `s`.
pub open spec fn stack_size_at(s: Seq<u8>, size: u64) -> bool {
    s.len() >= STACK_MSG_SIZE && is_word(word_bytes(s, 0), size)
}

/// `frames` are the frames of the stack record at the start of `s`: as many
/// as the first word gives, each the word at its place in the array.
pub open spec fn is_stack(s: Seq<u8>, frames: Seq<u64>) -> bool {
    &&& s.len() >= STACK_MSG_SIZE
    &&& frames.len() <= PERF_MAX_STACK_DEPTH
    &&& exists|size: u64| #[trigger]
        stack_size_at(s, size) && frame_count(size) == Some(frames.len())
    &&& forall|i: int|
        0 <= i < frames.len() ==> is_word(word_bytes(s, 8 + 8 * i), #[trigger] frames[i])
}

/// Decodes a stack record: the frames in the order of capture, innermost
/// first. Words of the array behind the last frame are not read.
pub fn stack_msg_handler(bytes: &[u8]) -> (frames: Result<Vec<u64>, StackError>)
    ensures
        bytes@.len() < STACK_MSG_SIZE <==> frames == Err::<Vec<u64>, StackError>(
            StackError::TooShort,
        ),
        frames matches Ok(v) ==> is_stack(bytes@, v@),
        frames matches Err(StackError::TooDeep(size)) ==> stack_size_at(bytes@, size)
            && frame_count(size) is None,
{
    if bytes.len() < STACK_MSG_SIZE {
        return Err(StackError::TooShort);
    }
    let size = match cast(bytes, 0) {
        Some(size) => size,
        None => {
            return Err(StackError::TooShort);
        },
    };
    let depth = match stack_depth(size) {
        Some(depth) => depth,
        None => {
            return Err(StackError::TooDeep(size));
        },
    };
    let mut frames: Vec<u64> = Vec::new();
    let mut i: usize = 0;
    while i < depth
        invariant
            i <= depth <= PERF_MAX_STACK_DEPTH,
            bytes@.len() >= STACK_MSG_SIZE,
            frames.len() == i,
            forall|k: int|
                0 <= k < i ==> is_word(word_bytes(bytes@, 8 + 8 * k), #[trigger] frames@[k]),
        decreases depth - i,
    {
        match cast(bytes, 8 + 8 * i) {
            Some(frame) => {
                frames.push(frame);
            },
            None => {
                return Err(StackError::TooShort);
            },
        }
        i += 1;
    }
    assert(stack_size_at(bytes@, size));
    Ok(frames)
}

/// The frames of a stack record do not depend on what the array holds behind
/// them: records that agree up to the last frame have the same frames.
pub proof fn lemma_stale_words_ignored(s: Seq<u8>, t: Seq<u8>, frames: Seq<u64>)
    requires
        is_stack(s, frames),
        t.len() >= STACK_MSG_SIZE,
        forall|k: int| 0 <= k < 8 + 8 * frames.len() ==> s[k] == t[k],
    ensures
        is_stack(t, frames),
{
    let size = choose|size: u64| #[trigger]
        stack_size_at(s, size) && frame_count(size) == Some(frames.len());
    assert(stack_size_at(t, size));
}

/// Where in the source an address or an inlined function lies.
#[derive(Debug, Clone, PartialEq, Eq)]
pub struct CodeInfo {
    /// The directory of the source file, if it is known.
    pub dir: Option<String>,
    /// The source file.
    pub file: String,
    pub line: Option<u32>,
    pub column: Option<u16>,
}

/// A function that the compiler has inlined at an address.
#[derive(Debug, Clone, PartialEq, Eq)]
pub struct InlinedFn {
    pub name: String,
    pub code_info: Option<CodeInfo>,
}

/// What the symbolizer has found for one address.
#[derive(Debug, Clone, PartialEq, Eq)]
pub enum Symbolized {
    /// The symbol that holds the address: its name, the address at which it
    /// begins, the offset of the address from there, and the functions
    /// inlined at the address, outermost first.
    Sym {
        name: String,
        addr: u64,
        offset: usize,
        code_info: Option<CodeInfo>,
        inlined: Vec<InlinedFn>,
    },
    /// No symbol holds the address.
    Unknown,
}

/// The path of the file `file` in the directory `dir`, as the symbolizer
/// joins them.
pub uninterp spec fn source_path(dir: Option<Seq<char>>, file: Seq<char>) -> Seq<char>;

/// The characters of a directory, if one is given.
pub open spec fn dir_text(dir: Option<String>) -> Option<Seq<char>> {
    match dir {
        Some(dir) => Some(dir@),
        None => None,
    }
}

/// Joins a directory and a file by `CodeInfo::to_path` of `blazesym`. Without
/// a directory that method gives the file as it is; with one it gives the
/// directory's path with the file joined to it, which depends on nothing but
/// the two.
#[verifier::external_body]
fn to_path(dir: Option<&str>, file: &str) -> (path: String)
    ensures
        path@ == source_path(
            match dir {
                Some(dir) => Some(dir@),
                None => None,
            },
            file@,
        ),
        dir is None ==> path@ == file@,
{
    let info = blazesym::symbolize::CodeInfo {
        dir: dir.map(std::path::Path::new).map(std::borrow::Cow::Borrowed),
        file: std::borrow::Cow::Borrowed(file.as_ref()),
        line: None,
        column: None,
        _non_exhaustive: (),
    };
    info.to_path().display().to_string()
}

/// A source location as text, behind a space: `path:line:column`, or
/// `path:line` without a column, or `path` without a line.
pub open spec fn location_text(path: Seq<char>, line: Option<u32>, column: Option<u16>) -> Seq<
    char,
> {
    seq![' '] + path + match line {
        Some(line) => seq![':'] + digits(line as nat, 10) + match column {
            Some(column) => seq![':'] + digits(column as nat, 10),
            None => Seq::empty(),
        },
        None => Seq::empty(),
    }
}

/// The source location of `code_info` as text, if there is one.
pub open spec fn info_text(code_info: Option<CodeInfo>) -> Option<Seq<char>> {
    match code_info {
        Some(info) => Some(
            location_text(source_path(dir_text(info.dir), info.file@), info.line, info.column),
        ),
        None => None,
    }
}

/// The line of a frame with a symbol:
/// `<address>: <name> @ <symbol address>+<offset>` and the source location if
/// there is one. The address is filled with zeros to sixteen characters.
pub open spec fn frame_text(
    name: Seq<char>,
    input_addr: u64,
    addr: u64,
    offset: usize,
    location: Option<Seq<char>>,
) -> Seq<char> {
    hex_padded(input_addr as nat, ADDR_WIDTH as nat) + seq![':', ' '] + name + seq![' ', '@', ' ']
        + hex_prefixed(addr as nat) + seq!['+'] + hex_prefixed(offset as nat) + match location {
        Some(location) => location,
        None => Seq::empty(),
    }
}

/// The line of an inlined function, set in under the address column:
/// eighteen spaces, the name, ` @` with the source location if there is one,
/// and the mark ` [inlined]`.
pub open spec fn inlined_text(name: Seq<char>, location: Option<Seq<char>>) -> Seq<char> {
    repeat(' ', ADDR_WIDTH + 2) + name + match location {
        Some(location) => seq![' ', '@'] + location,
        None => Seq::empty(),
    } + seq![' ', '[', 'i', 'n', 'l', 'i', 'n', 'e', 'd', ']']
}

/// The line of a frame, or of an inlined function where `addr_info` is `None`.
pub open spec fn line_text(
    name: Seq<char>,
    addr_info: Option<(u64, u64, usize)>,
    location: Option<Seq<char>>,
) -> Seq<char> {
    match addr_info {
        Some((input_addr, addr, offset)) => frame_text(name, input_addr, addr, offset, location),
        None => inlined_text(name, location),
    }
}

/// The line of a frame without a symbol: `<address>: <no-symbol>`.
pub open spec fn no_symbol_text(input_addr: u64) -> Seq<char> {
    hex_padded(input_addr as nat, ADDR_WIDTH as nat) + seq![
        ':',
        ' ',
        '<',
        'n',
        'o',
        '-',
        's',
        'y',
        'm',
        'b',
        'o',
        'l',
        '>',
    ]
}

/// Formats a source location whose path is known.
pub fn format_location(path: &str, line: Option<u32>, column: Option<u16>) -> (s: String)
    ensures
        s@ == location_text(path@, line, column),
{
    let mut s = String::new();
    push_char(&mut s, ' ');
    s.append(path);
    match line {
        Some(line) => {
            push_char(&mut s, ':');
            push_digits(&mut s, line as u64, Radix::Decimal);
            match column {
                Some(column) => {
                    push_char(&mut s, ':');
                    push_digits(&mut s, column as u64, Radix::Decimal);
                },
                None => {},
            }
        },
        None => {},
    }
    s
}

/// Formats the source location of `code_info`, if there is one.
pub fn locate(code_info: &Option<CodeInfo>) -> (location: Option<String>)
    ensures
        match info_text(*code_info) {
            Some(text) => location matches Some(s) && s@ == text,
            None => location is None,
        },
{
    match code_info {
        Some(info) => {
            let path = match &info.dir {
                Some(dir) => to_path(Some(dir.as_str()), info.file.as_str()),
                None => to_path(None, info.file.as_str()),
            };
            Some(format_location(path.as_str(), info.line, info.column))
        },
        None => None,
    }
}

/// Formats the line of a frame whose source location, if it has one, is
/// given as text. With `addr_info`, the address of the frame, the address of
/// its symbol and the offset between them, it is the line of a frame with a
/// symbol; without, the line of an inlined function.
pub fn frame_line(name: &str, addr_info: Option<(u64, u64, usize)>, location: Option<&str>) -> (s:
    String)
    ensures
        s@ == line_text(
            name@,
            addr_info,
            match location {
                Some(location) => Some(location@),
                None => None,
            },
        ),
{
    let mut s = String::new();
    match addr_info {
        Some((input_addr, addr, offset)) => {
            push_hex_padded(&mut s, input_addr, ADDR_WIDTH);
            push_char(&mut s, ':');
            push_char(&mut s, ' ');
            s.append(name);
            push_char(&mut s, ' ');
            push_char(&mut s, '@');
            push_char(&mut s, ' ');
            push_hex_prefixed(&mut s, addr);
            push_char(&mut s, '+');
            push_hex_prefixed(&mut s, offset as u64);
            match location {
                Some(location) => {
                    s.append(location);
                },
                None => {},
            }
        },
        None => {
            push_repeat(&mut s, ' ', ADDR_WIDTH + 2);
            s.append(name);
            match location {
                Some(location) => {
                    push_char(&mut s, ' ');
                    push_char(&mut s, '@');
                    s.append(location);
                },
                None => {},
            }
            s.append(" [inlined]");
            proof {
                reveal_strlit(" [inlined]");
            }
        },
    }
    s
}

/// Formats the line of a frame: that of a frame with a symbol where
/// `addr_info` gives its addresses, that of an inlined function otherwise.
pub fn format_frame(
    name: &str,
    addr_info: Option<(u64, u64, usize)>,
    code_info: &Option<CodeInfo>,
) -> (s: String)
    ensures
        s@ == line_text(name@, addr_info, info_text(*code_info)),
{
    match locate(code_info) {
        Some(location) => frame_line(name, addr_info, Some(location.as_str())),
        None => frame_line(name, addr_info, None),
    }
}

/// Formats the line of a frame without a symbol.
pub fn format_no_symbol(input_addr: u64) -> (s: String)
    ensures
        s@ == no_symbol_text(input_addr),
{
    let mut s = String::new();
    push_hex_padded(&mut s, input_addr, ADDR_WIDTH);
    s.append(": <no-symbol>");
    proof {
        reveal_strlit(": <no-symbol>");
    }
    s
}

/// The texts of strings.
pub open spec fn texts(lines: Seq<String>) -> Seq<Seq<char>> {
    lines.map_values(|line: String| line@)
}

/// The lines of the first `count` inlined functions.
pub open spec fn inlined_lines(inlined: Seq<InlinedFn>, count: int) -> Seq<Seq<char>> {
    Seq::new(
        if count > 0 {
            count as nat
        } else {
            0
        },
        |i: int| inlined_text(inlined[i].name@, info_text(inlined[i].code_info)),
    )
}

/// The lines of one frame: its own line, and below it one line for each
/// function inlined there, in the order given.
pub open spec fn symbolized_lines(input_addr: u64, sym: Symbolized) -> Seq<Seq<char>> {
    match sym {
        Symbolized::Sym { name, addr, offset, code_info, inlined } => seq![
            frame_text(name@, input_addr, addr, offset, info_text(code_info)),
        ] + inlined_lines(inlined@, inlined@.len() as int),
        Symbolized::Unknown => seq![no_symbol_text(input_addr)],
    }
}

/// The lines of the first `count` frames of a stack, each address with what
/// the symbolizer found for it.
pub open spec fn stack_lines(addrs: Seq<u64>, syms: Seq<Symbolized>, count: int) -> Seq<Seq<char>>
    decreases count,
{
    if count <= 0 {
        Seq::empty()
    } else {
        stack_lines(addrs, syms, count - 1) + symbolized_lines(addrs[count - 1], syms[count - 1])
    }
}

/// Appends the lines of one frame to `lines`.
pub fn push_symbolized(lines: &mut Vec<String>, input_addr: u64, sym: &Symbolized)
    ensures
        texts(final(lines)@) == texts(old(lines)@) + symbolized_lines(input_addr, *sym),
{
    match sym {
        Symbolized::Sym { name, addr, offset, code_info, inlined } => {
            let line = format_frame(name.as_str(), Some((input_addr, *addr, *offset)), code_info);
            lines.push(line);
            let mut i: usize = 0;
            while i < inlined.len()
                invariant
                    i <= inlined.len(),
                    texts(lines@) == texts(old(lines)@) + seq![
                        frame_text(name@, input_addr, *addr, *offset, info_text(*code_info)),
                    ] + inlined_lines(inlined@, i as int),
                decreases inlined.len() - i,
            {
                let ghost before = texts(lines@);
                let frame = &inlined[i];
                let line = format_frame(frame.name.as_str(), None, &frame.code_info);
                lines.push(line);
                i += 1;
                assert(texts(lines@) =~= before.push(
                    inlined_text(inlined@[i - 1].name@, info_text(inlined@[i - 1].code_info)),
                ));
            }
        },
        Symbolized::Unknown => {
            let line = format_no_symbol(input_addr);
            lines.push(line);
        },
    }
}

/// The number of frames that have both an address and a result.
pub open spec fn paired(addrs: Seq<u64>, syms: Seq<Symbolized>) -> int {
    if addrs.len() <= syms.len() {
        addrs.len() as int
    } else {
        syms.len() as int
    }
}

/// Formats the lines that show a stack: for each address, in the order of
/// capture, the lines of what the symbolizer found for it.
pub fn format_stack(addrs: &[u64], syms: &Vec<Symbolized>) -> (lines: Vec<String>)
    ensures
        texts(lines@) == stack_lines(addrs@, syms@, paired(addrs@, syms@)),
{
    let count = if addrs.len() <= syms.len() {
        addrs.len()
    } else {
        syms.len()
    };
    let mut lines: Vec<String> = Vec::new();
    let mut i: usize = 0;
    while i < count
        invariant
            i <= count,
            count == paired(addrs@, syms@),
            texts(lines@) == stack_lines(addrs@, syms@, i as int),
        decreases count - i,
    {
        push_symbolized(&mut lines, addrs[i], &syms[i]);
        i += 1;
    }
    lines
}

} // verus!
