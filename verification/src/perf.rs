//! Programming one hardware breakpoint on every online CPU.
//!
//! [`breakpoint_attr`] describes the perf event to open. [`Attacher`] decides
//! the system calls that attach it, CPU after CPU: open the event, reset it,
//! enable it, bind the kernel-side program to it. The caller makes each call
//! and reports what it returned; the first call that fails ends the attachment.

use vstd::prelude::*;
use vstd::string::StringSliceAdditionalSpecFns;
use crate::ioctl::{PERF_EVENT_IOC_ENABLE, PERF_EVENT_IOC_RESET, PERF_EVENT_IOC_SET_BPF};
use crate::utils::{get_online_cpus, kernel_version, online_cpus, uname_version};

verus! {

/// The perf event type of a hardware breakpoint.
pub const PERF_TYPE_BREAKPOINT: u32 = 5;

/// The sample format that records the call chain.
pub const PERF_SAMPLE_CALLCHAIN: u64 = 32;

/// The flag that closes the event's descriptor on `exec`.
pub const PERF_FLAG_FD_CLOEXEC: u64 = 8;

pub const HW_BREAKPOINT_R: u32 = 1;

pub const HW_BREAKPOINT_W: u32 = 2;

pub const HW_BREAKPOINT_RW: u32 = 3;

pub const HW_BREAKPOINT_X: u32 = 4;

/// The process scope "any process".
pub const ANY_PROCESS: i32 = -1;

/// The group descriptor of an event that belongs to no group.
pub const NO_GROUP: i32 = -1;

/// The precision that requests synchronous delivery.
pub const PRECISE_IP_SYNC: u8 = 2;

/// What the tool sets in the attributes of the perf event it opens.
#[derive(Debug, Clone, Copy, PartialEq, Eq)]
pub struct BreakpointAttr {
    pub type_: u32,
    pub bp_addr: u64,
    pub bp_len: u64,
    pub bp_type: u32,
    pub sample_period: u64,
    pub wakeup_events: u32,
    pub precise_ip: u8,
    pub sample_type: u64,
}

/// A width and an access kind that the tool offers: 1, 2, 4 or 8 bytes, and
/// read, write, read-write or execute.
pub open spec fn valid_breakpoint(bp_type: u32, bp_len: u64) -> bool {
    &&& bp_type == HW_BREAKPOINT_R || bp_type == HW_BREAKPOINT_W || bp_type == HW_BREAKPOINT_RW
        || bp_type == HW_BREAKPOINT_X
    &&& bp_len == 1 || bp_len == 2 || bp_len == 4 || bp_len == 8
}

/// Whether a kernel of this major and minor version is asked for synchronous
/// delivery: every version after 6.0. Up to 6.0 the kernel-side program
/// cannot capture a stack under synchronous delivery.
pub open spec fn precise_delivery(version: (u32, u32)) -> bool {
    version.0 > 6 || (version.0 == 6 && version.1 > 0)
}

/// The attributes of the breakpoint at `symbol_addr`: it fires on every
/// access and wakes the reader on every event. With synchronous delivery the
/// call chain is sampled with the event, since the kernel-side program
/// cannot safely unwind there.
pub open spec fn breakpoint_attr_spec(
    symbol_addr: usize,
    bp_type: u32,
    bp_len: u64,
    version: (u32, u32),
) -> BreakpointAttr {
    BreakpointAttr {
        type_: PERF_TYPE_BREAKPOINT,
        bp_addr: symbol_addr as u64,
        bp_len,
        bp_type,
        sample_period: 1,
        wakeup_events: 1,
        precise_ip: if precise_delivery(version) {
            PRECISE_IP_SYNC
        } else {
            0
        },
        sample_type: if precise_delivery(version) {
            PERF_SAMPLE_CALLCHAIN
        } else {
            0
        },
    }
}

/// Whether to ask a kernel of this version for synchronous delivery.
pub fn wants_precise_delivery(version: (u32, u32)) -> (precise: bool)
    ensures
        precise == precise_delivery(version),
{
    version.0 > 6 || (version.0 == 6 && version.1 > 0)
}

/// Builds the attributes of the breakpoint for a kernel of the given version.
pub fn breakpoint_attr(symbol_addr: usize, bp_type: u32, bp_len: u64, version: (u32, u32)) -> (attr:
    BreakpointAttr)
    ensures
        attr == breakpoint_attr_spec(symbol_addr, bp_type, bp_len, version),
{
    let precise = wants_precise_delivery(version);
    BreakpointAttr {
        type_: PERF_TYPE_BREAKPOINT,
        bp_addr: symbol_addr as u64,
        bp_len,
        bp_type,
        sample_period: 1,
        wakeup_events: 1,
        precise_ip: if precise {
            PRECISE_IP_SYNC
        } else {
            0
        },
        sample_type: if precise {
            PERF_SAMPLE_CALLCHAIN
        } else {
            0
        },
    }
}

/// A step of attaching the breakpoint to one CPU.
#[derive(Debug, Clone, Copy, PartialEq, Eq)]
pub enum Stage {
    Open,
    Reset,
    Enable,
    Bind,
}

/// What the caller reports to the attacher.
#[derive(Debug, Clone, Copy, PartialEq, Eq)]
pub enum AttachEvent {
    /// Nothing was called yet.
    Start,
    /// The call that was asked for has returned `value`, and `errno` was set
    /// to this if it failed.
    Returned { value: i32, errno: i32 },
}

/// What the caller is to do next.
#[derive(Debug, Clone, Copy, PartialEq, Eq)]
pub enum AttachAction {
    /// Open the perf event by `perf_event_open` with these arguments.
    Open { attr: BreakpointAttr, pid: i32, cpu: i32, group_fd: i32, flags: u64 },
    /// Call `ioctl` on the event with this request and no argument.
    Control { fd: i32, request: u64 },
    /// Call `ioctl` on the event with this request and the descriptor of the
    /// kernel-side program as its argument.
    Bind { fd: i32, request: u64 },
    /// Every CPU has its breakpoint. The handles are to be kept open.
    Attached,
    /// A call has failed at this stage for this CPU.
    Failed { stage: Stage, cpu: i32, errno: i32 },
    /// An event was reported that answers no call.
    OutOfTurn,
}

/// Where an attachment stands.
#[derive(Debug, Clone, Copy, PartialEq, Eq)]
pub enum AttachPhase {
    /// Nothing was called yet.
    Idle,
    /// A call of this stage was asked for.
    Calling(Stage),
    /// Every CPU has its breakpoint.
    Done,
    /// A call has failed, or an event came out of turn.
    Aborted,
}

/// An attachment as a mathematical value.
pub struct AttachState {
    pub attr: BreakpointAttr,
    pub cpus: Seq<i32>,
    /// How many CPUs have their breakpoint.
    pub next: int,
    pub phase: AttachPhase,
    /// The descriptors of the events that were opened, in the order of the CPUs.
    pub handles: Seq<i32>,
}

impl AttachState {
    /// One handle was opened for each CPU that has its breakpoint, and one for
    /// the CPU whose breakpoint is being set up.
    pub open spec fn consistent(self) -> bool {
        &&& 0 <= self.next <= self.cpus.len()
        &&& match self.phase {
            AttachPhase::Idle => self.next == 0 && self.handles.len() == 0,
            AttachPhase::Calling(Stage::Open) => self.next < self.cpus.len() && self.handles.len()
                == self.next,
            AttachPhase::Calling(_) => self.next < self.cpus.len() && self.handles.len()
                == self.next + 1,
            AttachPhase::Done => self.next == self.cpus.len() && self.handles.len()
                == self.cpus.len(),
            AttachPhase::Aborted => true,
        }
    }

    /// The call that opens the event for the CPU at `next`, or the end of the
    /// attachment where no CPU is left.
    pub open spec fn open_next(self) -> (AttachState, AttachAction) {
        if 0 <= self.next < self.cpus.len() {
            (
                AttachState { phase: AttachPhase::Calling(Stage::Open), ..self },
                AttachAction::Open {
                    attr: self.attr,
                    pid: ANY_PROCESS,
                    cpu: self.cpus[self.next],
                    group_fd: NO_GROUP,
                    flags: PERF_FLAG_FD_CLOEXEC,
                },
            )
        } else {
            (AttachState { phase: AttachPhase::Done, ..self }, AttachAction::Attached)
        }
    }

    /// The state after a call of `stage` has returned `value`, and what to do then.
    pub open spec fn after_call(self, stage: Stage, value: i32, errno: i32) -> (
        AttachState,
        AttachAction,
    ) {
        if value < 0 || !(0 <= self.next < self.cpus.len()) || (stage != Stage::Open
            && self.handles.len() == 0) {
            (
                AttachState { phase: AttachPhase::Aborted, ..self },
                if value < 0 && 0 <= self.next < self.cpus.len() {
                    AttachAction::Failed { stage, cpu: self.cpus[self.next], errno }
                } else {
                    AttachAction::OutOfTurn
                },
            )
        } else {
            match stage {
                Stage::Open => (
                    AttachState {
                        phase: AttachPhase::Calling(Stage::Reset),
                        handles: self.handles.push(value),
                        ..self
                    },
                    AttachAction::Control { fd: value, request: PERF_EVENT_IOC_RESET },
                ),
                Stage::Reset => (
                    AttachState { phase: AttachPhase::Calling(Stage::Enable), ..self },
                    AttachAction::Control {
                        fd: self.handles.last(),
                        request: PERF_EVENT_IOC_ENABLE,
                    },
                ),
                Stage::Enable => (
                    AttachState { phase: AttachPhase::Calling(Stage::Bind), ..self },
                    AttachAction::Bind { fd: self.handles.last(), request: PERF_EVENT_IOC_SET_BPF },
                ),
                Stage::Bind => (AttachState { next: self.next + 1, ..self }).open_next(),
            }
        }
    }

    /// The state after `event`, and what to do then.
    pub open spec fn step(self, event: AttachEvent) -> (AttachState, AttachAction) {
        match (self.phase, event) {
            (AttachPhase::Idle, AttachEvent::Start) => self.open_next(),
            (AttachPhase::Calling(stage), AttachEvent::Returned { value, errno }) => {
                self.after_call(stage, value, errno)
            },
            _ => (AttachState { phase: AttachPhase::Aborted, ..self }, AttachAction::OutOfTurn),
        }
    }
}

/// The attachment before its first step.
pub open spec fn initial_attachment(attr: BreakpointAttr, cpus: Seq<i32>) -> AttachState {
    AttachState { attr, cpus, next: 0, phase: AttachPhase::Idle, handles: Seq::empty() }
}

/// A step keeps the count of handles in line with the CPUs, so that an
/// attachment that ends with `Attached` holds one handle for each CPU.
pub proof fn lemma_step_consistent(state: AttachState, event: AttachEvent)
    requires
        state.consistent(),
    ensures
        state.step(event).0.consistent(),
        state.step(event).0.cpus == state.cpus,
        state.step(event).0.attr == state.attr,
        state.step(event).1 is Attached ==> state.step(event).0.handles.len() == state.cpus.len(),
        state.step(event).1 is Attached <==> state.step(event).0.phase is Done,
{
}

/// The report that the call asked for in `state` has succeeded: opening the
/// event for the CPU at `next` has returned `fds[next]`, any other call zero.
pub open spec fn success(state: AttachState, fds: Seq<i32>) -> AttachEvent {
    match state.phase {
        AttachPhase::Calling(Stage::Open) => AttachEvent::Returned {
            value: fds[state.next],
            errno: 0,
        },
        _ => AttachEvent::Returned { value: 0, errno: 0 },
    }
}

/// A bound on the calls that can still follow in `state`.
pub open spec fn calls_left(state: AttachState) -> nat {
    let cpus_left = if 0 <= state.next <= state.cpus.len() {
        state.cpus.len() - state.next
    } else {
        0
    };
    match state.phase {
        AttachPhase::Idle => (4 * cpus_left + 2) as nat,
        AttachPhase::Calling(Stage::Open) => (4 * cpus_left + 1) as nat,
        AttachPhase::Calling(Stage::Reset) => (4 * cpus_left) as nat,
        AttachPhase::Calling(Stage::Enable) => (4 * cpus_left - 1) as nat,
        AttachPhase::Calling(Stage::Bind) => (4 * cpus_left - 2) as nat,
        _ => 0,
    }
}

/// Whether the action asks for a system call.
pub open spec fn is_call(action: AttachAction) -> bool {
    action is Open || action is Control || action is Bind
}

/// Every step that asks for a call leaves fewer calls to follow.
pub proof fn lemma_calls_left(state: AttachState, event: AttachEvent)
    ensures
        is_call(state.step(event).1) ==> calls_left(state.step(event).0) < calls_left(state),
{
}

/// The state in which an attachment ends when `event` arrives in `state` and
/// every call from then on succeeds, the events being opened as `fds`.
pub open spec fn run_succeeding(state: AttachState, event: AttachEvent, fds: Seq<i32>)
    -> AttachState
    decreases calls_left(state),
{
    let (next, action) = state.step(event);
    if is_call(action) {
        proof {
            lemma_calls_left(state, event);
        }
        run_succeeding(next, success(next, fds), fds)
    } else {
        next
    }
}

/// Once the events of the first `done` CPUs are attached, attaching the others
/// with calls that all succeed ends with the events of all CPUs as handles.
proof fn lemma_attach_rest(state: AttachState, fds: Seq<i32>, done: int)
    requires
        0 <= done <= state.cpus.len(),
        fds.len() == state.cpus.len(),
        forall|i: int| 0 <= i < fds.len() ==> fds[i] >= 0,
        state.next == done,
        state.handles == fds.take(done),
    ensures
        ({
            let (opening, action) = state.open_next();
            let end = if is_call(action) {
                run_succeeding(opening, success(opening, fds), fds)
            } else {
                opening
            };
            &&& end.phase is Done
            &&& end.handles == fds
            &&& end.cpus == state.cpus
        }),
    decreases state.cpus.len() - done,
{
    if done < state.cpus.len() {
        let (opening, _) = state.open_next();
        let (resetting, _) = opening.step(success(opening, fds));
        let (enabling, _) = resetting.step(success(resetting, fds));
        let (binding, _) = enabling.step(success(enabling, fds));
        assert(resetting.handles =~= fds.take(done + 1));
        let bound = AttachState { next: done + 1, ..binding };
        lemma_attach_rest(bound, fds, done + 1);
        reveal_with_fuel(run_succeeding, 5);
    } else {
        assert(fds.take(done) =~= fds);
    }
}

/// Where every call succeeds, the attachment ends with one handle for each
/// CPU: the events that were opened, in the order of the CPUs.
pub proof fn lemma_attach_all(attr: BreakpointAttr, cpus: Seq<i32>, fds: Seq<i32>)
    requires
        fds.len() == cpus.len(),
        forall|i: int| 0 <= i < fds.len() ==> fds[i] >= 0,
    ensures
        ({
            let end = run_succeeding(initial_attachment(attr, cpus), AttachEvent::Start, fds);
            end.phase is Done && end.handles == fds
        }),
{
    let start = initial_attachment(attr, cpus);
    assert(start.handles =~= fds.take(0));
    lemma_attach_rest(start, fds, 0);
}

/// The decisions of one attachment.
pub struct Attacher {
    attr: BreakpointAttr,
    cpus: Vec<i32>,
    next: usize,
    phase: AttachPhase,
    handles: Vec<i32>,
}

impl View for Attacher {
    type V = AttachState;

    closed spec fn view(&self) -> AttachState {
        AttachState {
            attr: self.attr,
            cpus: self.cpus@,
            next: self.next as int,
            phase: self.phase,
            handles: self.handles@,
        }
    }
}

impl Attacher {
    /// Begins the attachment of the breakpoint `attr` to the CPUs `cpus`.
    pub fn new(attr: BreakpointAttr, cpus: Vec<i32>) -> (attacher: Self)
        ensures
            attacher@ == initial_attachment(attr, cpus@),
            attacher@.consistent(),
    {
        Attacher { attr, cpus, next: 0, phase: AttachPhase::Idle, handles: Vec::new() }
    }

    /// The descriptors of the events that were opened so far, in the order of
    /// the CPUs. After `Attached` there is one for each CPU.
    pub fn handles(&self) -> (handles: &Vec<i32>)
        ensures
            handles@ == self@.handles,
    {
        &self.handles
    }

    /// The call that opens the event for the next CPU, if one is left.
    fn open_next(&mut self) -> (action: AttachAction)
        ensures
            (final(self)@, action) == old(self)@.open_next(),
    {
        if self.next < self.cpus.len() {
            self.phase = AttachPhase::Calling(Stage::Open);
            AttachAction::Open {
                attr: self.attr,
                pid: ANY_PROCESS,
                cpu: self.cpus[self.next],
                group_fd: NO_GROUP,
                flags: PERF_FLAG_FD_CLOEXEC,
            }
        } else {
            self.phase = AttachPhase::Done;
            AttachAction::Attached
        }
    }

    /// Takes what the last call returned and gives the next call.
    pub fn step(&mut self, event: AttachEvent) -> (action: AttachAction)
        ensures
            (final(self)@, action) == old(self)@.step(event),
            old(self)@.consistent() ==> final(self)@.consistent(),
    {
        proof {
            if self@.consistent() {
                lemma_step_consistent(self@, event);
            }
        }
        match (self.phase, event) {
            (AttachPhase::Idle, AttachEvent::Start) => self.open_next(),
            (AttachPhase::Calling(stage), AttachEvent::Returned { value, errno }) => {
                let in_turn = self.next < self.cpus.len() && (self.handles.len() > 0 || matches!(
                    stage,
                    Stage::Open
                ));
                if value < 0 || !in_turn {
                    self.phase = AttachPhase::Aborted;
                    return if value < 0 && self.next < self.cpus.len() {
                        AttachAction::Failed { stage, cpu: self.cpus[self.next], errno }
                    } else {
                        AttachAction::OutOfTurn
                    };
                }
                match stage {
                    Stage::Open => {
                        self.handles.push(value);
                        self.phase = AttachPhase::Calling(Stage::Reset);
                        AttachAction::Control { fd: value, request: PERF_EVENT_IOC_RESET }
                    },
                    Stage::Reset => {
                        self.phase = AttachPhase::Calling(Stage::Enable);
                        AttachAction::Control {
                            fd: self.handles[self.handles.len() - 1],
                            request: PERF_EVENT_IOC_ENABLE,
                        }
                    },
                    Stage::Enable => {
                        self.phase = AttachPhase::Calling(Stage::Bind);
                        AttachAction::Bind {
                            fd: self.handles[self.handles.len() - 1],
                            request: PERF_EVENT_IOC_SET_BPF,
                        }
                    },
                    Stage::Bind => {
                        self.next = self.next + 1;
                        self.open_next()
                    },
                }
            },
            _ => {
                self.phase = AttachPhase::Aborted;
                AttachAction::OutOfTurn
            },
        }
    }
}

/// Why an attachment cannot begin.
#[derive(Debug, Clone, Copy, PartialEq, Eq)]
pub enum SetupError {
    /// The kernel's release string does not begin with a major and minor version.
    Release,
    /// The list of online CPUs is malformed.
    CpuList,
}

/// Prepares the attachment of a breakpoint at `symbol_addr` to every CPU
/// that the list `online` names, with the delivery that suits the kernel of
/// the release `release`.
pub fn attach_breakpoint(
    symbol_addr: usize,
    bp_type: u32,
    bp_len: u64,
    release: &str,
    online: &str,
) -> (attacher: Result<Attacher, SetupError>)
    ensures
        match (kernel_version(release.spec_bytes()), online_cpus(online.spec_bytes())) {
            (Some(version), Some(cpus)) => attacher matches Ok(a) && a@ == initial_attachment(
                breakpoint_attr_spec(symbol_addr, bp_type, bp_len, version),
                cpus,
            ),
            (None, _) => attacher matches Err(SetupError::Release),
            (Some(_), None) => attacher matches Err(SetupError::CpuList),
        },
{
    let version = match uname_version(release) {
        Some(version) => version,
        None => {
            return Err(SetupError::Release);
        },
    };
    let attr = breakpoint_attr(symbol_addr, bp_type, bp_len, version);
    match get_online_cpus(online) {
        Some(cpus) => Ok(Attacher::new(attr, cpus)),
        None => Err(SetupError::CpuList),
    }
}

} // verus!
