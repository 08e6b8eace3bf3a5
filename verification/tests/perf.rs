use kmemsnoop::ioctl::{PERF_EVENT_IOC_ENABLE, PERF_EVENT_IOC_RESET, PERF_EVENT_IOC_SET_BPF};
use kmemsnoop::perf::{
    breakpoint_attr, wants_precise_delivery, AttachAction, AttachEvent, Attacher, BreakpointAttr,
    SetupError, Stage, ANY_PROCESS, HW_BREAKPOINT_R, HW_BREAKPOINT_RW, HW_BREAKPOINT_W,
    HW_BREAKPOINT_X, NO_GROUP, PERF_FLAG_FD_CLOEXEC, PERF_SAMPLE_CALLCHAIN, PERF_TYPE_BREAKPOINT,
};
use kmemsnoop::utils::uname_version;
use perf_event_open_sys::bindings;

fn ok(value: i32) -> AttachEvent {
    AttachEvent::Returned { value, errno: 0 }
}

#[test]
fn constants_are_those_of_the_kernel_headers() {
    assert_eq!(PERF_TYPE_BREAKPOINT, bindings::PERF_TYPE_BREAKPOINT);
    assert_eq!(PERF_SAMPLE_CALLCHAIN, bindings::PERF_SAMPLE_CALLCHAIN as u64);
    assert_eq!(PERF_FLAG_FD_CLOEXEC, bindings::PERF_FLAG_FD_CLOEXEC as u64);
    assert_eq!(HW_BREAKPOINT_R, bindings::HW_BREAKPOINT_R);
    assert_eq!(HW_BREAKPOINT_W, bindings::HW_BREAKPOINT_W);
    assert_eq!(HW_BREAKPOINT_RW, bindings::HW_BREAKPOINT_RW);
    assert_eq!(HW_BREAKPOINT_X, bindings::HW_BREAKPOINT_X);
    assert_eq!(PERF_EVENT_IOC_ENABLE, bindings::ENABLE as u64);
    assert_eq!(PERF_EVENT_IOC_RESET, bindings::RESET as u64);
    assert_eq!(PERF_EVENT_IOC_SET_BPF, bindings::SET_BPF as u64);
}

#[test]
fn legacy_kernel_gets_no_precise_delivery() {
    let version = uname_version("5.15.0-91-generic").unwrap();
    assert_eq!(version, (5, 15));
    assert!(!wants_precise_delivery(version));
    let attr = breakpoint_attr(0xffffffff82000000, HW_BREAKPOINT_W, 4, version);
    assert_eq!(
        attr,
        BreakpointAttr {
            type_: 5,
            bp_addr: 0xffffffff82000000,
            bp_len: 4,
            bp_type: 2,
            sample_period: 1,
            wakeup_events: 1,
            precise_ip: 0,
            sample_type: 0,
        }
    );
}

#[test]
fn newer_kernel_gets_precise_delivery_and_callchain() {
    let version = uname_version("6.5.0-14-generic").unwrap();
    assert_eq!(version, (6, 5));
    assert!(wants_precise_delivery(version));
    let attr = breakpoint_attr(0xffffffff81000000, HW_BREAKPOINT_X, 8, version);
    assert_eq!(
        attr,
        BreakpointAttr {
            type_: 5,
            bp_addr: 0xffffffff81000000,
            bp_len: 8,
            bp_type: 4,
            sample_period: 1,
            wakeup_events: 1,
            precise_ip: 2,
            sample_type: 32,
        }
    );
}

#[test]
fn delivery_changes_after_six_zero() {
    assert!(!wants_precise_delivery((0, 0)));
    assert!(!wants_precise_delivery((5, 19)));
    assert!(!wants_precise_delivery((5, u32::MAX)));
    assert!(!wants_precise_delivery((6, 0)));
    assert!(wants_precise_delivery((6, 1)));
    assert!(wants_precise_delivery((7, 0)));
    assert!(wants_precise_delivery((u32::MAX, 0)));
}

#[test]
fn attach_opens_resets_enables_and_binds_each_cpu() {
    let attr = breakpoint_attr(0x1000, HW_BREAKPOINT_RW, 8, (6, 5));
    let mut attacher = Attacher::new(attr, vec![0, 1, 5]);
    let mut event = AttachEvent::Start;
    let mut fd = 10;
    for cpu in [0, 1, 5] {
        assert_eq!(
            attacher.step(event),
            AttachAction::Open {
                attr,
                pid: ANY_PROCESS,
                cpu,
                group_fd: NO_GROUP,
                flags: PERF_FLAG_FD_CLOEXEC,
            }
        );
        assert_eq!(
            attacher.step(ok(fd)),
            AttachAction::Control {
                fd,
                request: PERF_EVENT_IOC_RESET
            }
        );
        assert_eq!(
            attacher.step(ok(0)),
            AttachAction::Control {
                fd,
                request: PERF_EVENT_IOC_ENABLE
            }
        );
        assert_eq!(
            attacher.step(ok(0)),
            AttachAction::Bind {
                fd,
                request: PERF_EVENT_IOC_SET_BPF
            }
        );
        event = ok(0);
        fd += 1;
    }
    assert_eq!(attacher.step(event), AttachAction::Attached);
    assert_eq!(attacher.handles(), &vec![10, 11, 12]);
    assert_eq!(attacher.step(ok(0)), AttachAction::OutOfTurn);
}

#[test]
fn attach_session_is_cross_process_and_ungrouped() {
    assert_eq!(ANY_PROCESS, -1);
    assert_eq!(NO_GROUP, -1);
    assert_eq!(PERF_FLAG_FD_CLOEXEC, 8);
}

#[test]
fn attach_without_cpus_is_done_at_once() {
    let attr = breakpoint_attr(0x1000, HW_BREAKPOINT_R, 1, (5, 4));
    let mut attacher = Attacher::new(attr, vec![]);
    assert_eq!(attacher.step(AttachEvent::Start), AttachAction::Attached);
    assert!(attacher.handles().is_empty());
}

#[test]
fn attach_stops_at_the_first_failure() {
    let attr = breakpoint_attr(0x1000, HW_BREAKPOINT_R, 1, (5, 4));
    let mut attacher = Attacher::new(attr, vec![2, 3]);
    attacher.step(AttachEvent::Start);
    assert_eq!(
        attacher.step(AttachEvent::Returned {
            value: -1,
            errno: 13
        }),
        AttachAction::Failed {
            stage: Stage::Open,
            cpu: 2,
            errno: 13
        }
    );
    assert!(attacher.handles().is_empty());
    assert_eq!(attacher.step(ok(3)), AttachAction::OutOfTurn);

    let mut attacher = Attacher::new(attr, vec![2, 3]);
    attacher.step(AttachEvent::Start);
    attacher.step(ok(7));
    attacher.step(ok(0));
    attacher.step(ok(0));
    attacher.step(ok(0));
    attacher.step(ok(8));
    attacher.step(ok(0));
    assert_eq!(
        attacher.step(AttachEvent::Returned {
            value: -1,
            errno: 22
        }),
        AttachAction::Failed {
            stage: Stage::Enable,
            cpu: 3,
            errno: 22
        }
    );
    assert_eq!(attacher.handles(), &vec![7, 8]);
}

#[test]
fn attach_failure_at_each_stage_names_the_stage() {
    let attr = breakpoint_attr(0x1000, HW_BREAKPOINT_R, 1, (5, 4));
    let fail = AttachEvent::Returned {
        value: -1,
        errno: 1,
    };
    let stages = [Stage::Open, Stage::Reset, Stage::Enable, Stage::Bind];
    for (done, stage) in stages.iter().enumerate() {
        let mut attacher = Attacher::new(attr, vec![4]);
        attacher.step(AttachEvent::Start);
        for _ in 0..done {
            attacher.step(ok(3));
        }
        assert_eq!(
            attacher.step(fail),
            AttachAction::Failed {
                stage: *stage,
                cpu: 4,
                errno: 1
            }
        );
    }
}

#[test]
fn attach_event_out_of_turn_ends_the_attachment() {
    let attr = breakpoint_attr(0x1000, HW_BREAKPOINT_R, 1, (5, 4));
    let mut attacher = Attacher::new(attr, vec![0]);
    assert_eq!(attacher.step(ok(3)), AttachAction::OutOfTurn);
    assert_eq!(attacher.step(AttachEvent::Start), AttachAction::OutOfTurn);
    let mut attacher = Attacher::new(attr, vec![0]);
    attacher.step(AttachEvent::Start);
    assert_eq!(attacher.step(AttachEvent::Start), AttachAction::OutOfTurn);
}

#[test]
fn attachment_is_prepared_from_release_and_cpu_list() {
    let mut attacher = kmemsnoop::perf::attach_breakpoint(
        0xffffffff82000000,
        HW_BREAKPOINT_RW,
        8,
        "6.5.0-14-generic",
        "0-1,3\n",
    )
    .unwrap();
    let attr = breakpoint_attr(0xffffffff82000000, HW_BREAKPOINT_RW, 8, (6, 5));
    assert_eq!(attr.precise_ip, 2);
    let mut event = AttachEvent::Start;
    let mut cpus = Vec::new();
    for _ in 0..100 {
        event = match attacher.step(event) {
            AttachAction::Open {
                attr: asked, cpu, ..
            } => {
                assert_eq!(asked, attr);
                cpus.push(cpu);
                ok(100 + cpu)
            }
            AttachAction::Control { .. } | AttachAction::Bind { .. } => ok(0),
            AttachAction::Attached => break,
            other => panic!("the attachment ended with {:?}", other),
        };
    }
    assert_eq!(cpus, vec![0, 1, 3]);
    assert_eq!(attacher.handles(), &vec![100, 101, 103]);
}

#[test]
fn attachment_needs_a_version_and_a_cpu_list() {
    assert_eq!(
        kmemsnoop::perf::attach_breakpoint(0x1000, HW_BREAKPOINT_W, 4, "generic", "0-3").err(),
        Some(SetupError::Release)
    );
    assert_eq!(
        kmemsnoop::perf::attach_breakpoint(0x1000, HW_BREAKPOINT_W, 4, "", "").err(),
        Some(SetupError::Release)
    );
    assert_eq!(
        kmemsnoop::perf::attach_breakpoint(0x1000, HW_BREAKPOINT_W, 4, "5.15.0", "0-").err(),
        Some(SetupError::CpuList)
    );
    assert_eq!(
        kmemsnoop::perf::attach_breakpoint(0x1000, HW_BREAKPOINT_W, 4, "5.15.0", "").err(),
        Some(SetupError::CpuList)
    );
}
