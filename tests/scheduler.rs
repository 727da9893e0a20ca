use xous_kernel::error::KernelError;
use xous_kernel::hosted::{decode_frame, encode_frame, plan_dispatch};
use xous_kernel::process::{InitialProcess, Process, ProcessInner, ProcessState, MemoryMapping, IRQ_CONTEXT, RETURN_FROM_ISR, EXIT_THREAD};
use xous_kernel::services::SystemServices;

fn boot3() -> SystemServices {
    let mut ss = SystemServices::new();
    ss.init(&[
        InitialProcess::new(1 << 22, 0x100, 0x7000_0000),
        InitialProcess::new(2 << 22, 0x200, 0x7100_0000),
        InitialProcess::new(3 << 22, 0x300, 0x7200_0000),
    ]);
    ss
}

fn running_count(ss: &SystemServices) -> usize {
    ss.processes.iter().filter(|p| matches!(p.state(), ProcessState::Running(_))).count()
}

fn check_invariants(ss: &SystemServices) {
    assert!(running_count(ss) <= 1);
    for (i, p) in ss.processes.iter().enumerate() {
        match p.state() {
            ProcessState::Running(m) => {
                assert_eq!(i + 1, ss.pid as usize);
                assert_eq!(ss.active, p.mapping);
                assert_eq!(m & (1 << p.current_context()), 0);
            }
            ProcessState::Ready(m) => assert_ne!(m, 0),
            ProcessState::Free => assert_ne!(p.mapping.get_pid(), i + 1),
            _ => {}
        }
        if p.state() != ProcessState::Free {
            assert_eq!(p.mapping.get_pid(), i + 1);
        }
    }
    for inner in ss.inners.iter() {
        for &v in inner.connection_map.iter() {
            if v != 0 {
                assert!(ss.servers[v as usize - 1].is_some());
            }
        }
    }
}

#[test]
fn invariants_hold_along_a_run() {
    let mut ss = boot3();
    check_invariants(&ss);
    ss.activate_process_context(2, 0, true, false).unwrap();
    check_invariants(&ss);
    let sid = ss.create_server(1).unwrap();
    ss.spawn_thread(0x400, 0x7100_8000, 5).unwrap();
    check_invariants(&ss);
    ss.activate_process_context(3, 0, true, true).unwrap();
    check_invariants(&ss);
    ss.connect_to_server(sid).unwrap();
    check_invariants(&ss);
    ss.activate_process_context(2, 0, false, false).unwrap();
    check_invariants(&ss);
    ss.activate_process_context(1, 0, true, false).unwrap();
    check_invariants(&ss);
}

#[test]
fn round_trip_restores_both_processes() {
    let mut ss = boot3();
    ss.activate_process_context(2, 0, true, false).unwrap();
    ss.activate_process_context(1, 0, true, false).unwrap();
    let kernel_before = ss.processes[0];
    let other_before = ss.processes[1].state();
    assert_eq!(other_before, ProcessState::Ready(1 << 2));
    ss.activate_process_context(2, 0, true, false).unwrap();
    ss.activate_process_context(1, 0, true, false).unwrap();
    assert_eq!(ss.processes[1].state(), other_before);
    assert_eq!(ss.processes[0].state(), kernel_before.state());
    assert_eq!(ss.processes[0].current_context(), kernel_before.current_context());
    assert_eq!(ss.pid, 1);
}

#[test]
fn same_process_switch_picks_requested_thread() {
    let mut ss = boot3();
    ss.activate_process_context(2, 0, true, false).unwrap();
    let t = ss.spawn_thread(0x400, 0x7100_8000, 5).unwrap();
    assert_eq!(t, 3);
    assert_eq!(ss.processes[1].state(), ProcessState::Running(1 << 3));
    assert_eq!(ss.activate_process_context(2, 3, true, false), Ok(3));
    assert_eq!(ss.processes[1].state(), ProcessState::Running(1 << 2));
    assert_eq!(ss.processes[1].current_context(), 3);
    assert_eq!(ss.activate_process_context(2, 3, true, false), Ok(3));
    assert_eq!(ss.activate_process_context(2, 7, true, false), Err(KernelError::ProcessNotFound));
}

#[test]
fn round_robin_scans_from_current_thread() {
    let mut ss = boot3();
    ss.activate_process_context(2, 0, true, false).unwrap();
    ss.spawn_thread(0x400, 0x7100_8000, 5).unwrap();
    ss.spawn_thread(0x500, 0x7100_9000, 6).unwrap();
    // PID 2 runs thread 2; threads 3 and 4 are runnable.
    ss.activate_process_context(1, 0, true, true).unwrap();
    assert_eq!(ss.processes[1].state(), ProcessState::Ready((1 << 2) | (1 << 3) | (1 << 4)));
    assert_eq!(ss.processes[1].current_context(), 3);
    assert_eq!(ss.activate_process_context(2, 0, true, false), Ok(3));
    assert_eq!(ss.processes[1].state(), ProcessState::Running((1 << 2) | (1 << 4)));
}

#[test]
fn activation_of_sleeping_or_missing_process_fails() {
    let mut ss = boot3();
    ss.activate_process_context(2, 0, false, false).unwrap();
    assert_eq!(ss.processes[0].state(), ProcessState::Sleeping);
    assert_eq!(ss.activate_process_context(1, 0, true, false), Err(KernelError::ProcessNotFound));
    assert_eq!(ss.activate_process_context(0, 0, true, false), Err(KernelError::ProcessNotFound));
    assert_eq!(ss.activate_process_context(7, 0, true, false), Err(KernelError::ProcessNotFound));
    assert_eq!(ss.activate_process_context(200, 0, true, false), Err(KernelError::ProcessNotFound));
    assert_eq!(ss.activate_process_context(3, 5, true, false), Ok(2));
}

#[test]
fn requested_thread_must_be_runnable() {
    let mut ss = boot3();
    ss.activate_process_context(2, 0, true, false).unwrap();
    assert_eq!(ss.activate_process_context(1, 3, true, false), Err(KernelError::ProcessNotFound));
    assert_eq!(ss.activate_process_context(1, 2, true, false), Ok(2));
}

#[test]
fn spawn_thread_never_uses_reserved_ids() {
    let mut ss = boot3();
    let mut ids = Vec::new();
    loop {
        match ss.spawn_thread(0x400, 0x8000, 0) {
            Ok(c) => ids.push(c),
            Err(e) => {
                assert_eq!(e, KernelError::ContextNotAvailable);
                break;
            }
        }
    }
    assert!(!ids.contains(&IRQ_CONTEXT));
    assert!(!ids.contains(&0));
    assert!(!ids.contains(&2));
    assert_eq!(ids, (3..=31).collect::<Vec<usize>>());
    let t = &ss.threads[5];
    assert_eq!(t.pc, 0x400);
    assert_eq!(t.ret_addr, EXIT_THREAD);
    assert!(t.supervisor);
}

#[test]
fn ready_context_wakes_threads() {
    let mut ss = boot3();
    ss.activate_process_context(2, 0, false, false).unwrap();
    assert_eq!(ss.ready_context(1, 2), Ok(()));
    assert_eq!(ss.processes[0].state(), ProcessState::Ready(1 << 2));
    assert_eq!(ss.ready_context(1, 5), Ok(()));
    assert_eq!(ss.processes[0].state(), ProcessState::Ready((1 << 2) | (1 << 5)));
    assert_eq!(ss.ready_context(2, 4), Ok(()));
    assert_eq!(ss.processes[1].state(), ProcessState::Running(1 << 4));
    assert_eq!(ss.ready_context(0, 4), Err(KernelError::ProcessNotFound));
}

#[test]
fn callback_runs_on_irq_thread_and_resumes() {
    let mut ss = boot3();
    ss.activate_process_context(2, 0, true, false).unwrap();
    ss.threads[32 + 2].sp = 0x7100_0000;
    assert_eq!(ss.make_callback_to(2, 0x2200, 9, 0xabc), Ok(()));
    assert_eq!(ss.processes[1].state(), ProcessState::Running(1 << 2));
    assert_eq!(ss.processes[1].current_context(), IRQ_CONTEXT);
    assert_eq!(ss.processes[1].previous_context, 2);
    let t = &ss.threads[32 + IRQ_CONTEXT];
    assert_eq!((t.pc, t.sp, t.ret_addr, t.arg0, t.arg1), (0x2200, 0x7100_0000, RETURN_FROM_ISR, 9, 0xabc));
    assert_eq!(ss.finish_callback_and_resume(2, 2), Ok(()));
    assert_eq!(ss.processes[1].state(), ProcessState::Running(0));
    assert_eq!(ss.processes[1].current_context(), 2);
    assert_eq!(ss.make_callback_to(9, 0, 0, 0), Err(KernelError::ProcessNotFound));
}

#[test]
fn callback_into_other_process() {
    let mut ss = boot3();
    ss.activate_process_context(2, 0, true, false).unwrap();
    ss.activate_process_context(1, 0, true, false).unwrap();
    assert_eq!(ss.make_callback_to(2, 0x2200, 3, 4), Ok(()));
    assert_eq!(ss.pid, 2);
    assert_eq!(ss.processes[0].state(), ProcessState::Ready(1 << 2));
    assert_eq!(ss.processes[1].state(), ProcessState::Running(1 << 2));
    assert_eq!(ss.finish_callback_and_resume(1, 2), Ok(()));
    assert_eq!(ss.processes[1].state(), ProcessState::Ready(1 << 2));
    assert_eq!(ss.processes[1].current_context(), 2);
    assert_eq!(ss.processes[0].state(), ProcessState::Running(0));
    assert_eq!(ss.pid, 1);
}

#[test]
fn connect_errors() {
    let mut ss = boot3();
    assert_eq!(ss.connect_to_server((1, 2, 3, 4)), Err(KernelError::OutOfMemory));
    assert_eq!(ss.sidx_from_cid(0), None);
    assert_eq!(ss.sidx_from_cid(33), None);
    assert_eq!(ss.sidx_from_cid(1), None);
}

#[test]
fn server_table_fills_up() {
    let mut ss = boot3();
    for n in 0..32 {
        assert_eq!(ss.create_server(n), Ok((1, n, 1, n)));
    }
    assert_eq!(ss.create_server(99), Err(KernelError::OutOfMemory));
    assert_eq!(ss.server_mut((1, 5, 1, 5)).unwrap().sid, (1, 5, 1, 5));
    assert!(ss.server_mut((2, 5, 2, 5)).is_none());
    // Every server got its own zeroed page and frame.
    assert_eq!(ss.spaces[0].pages.len(), 32);
}

#[test]
fn connection_map_fills_up() {
    let mut ss = boot3();
    for n in 0..33 {
        ss.create_server(n).unwrap_or((0, 0, 0, 0));
    }
    for n in 0..32 {
        assert_eq!(ss.connect_to_server((1, n, 1, n)), Ok(n + 1));
    }
    assert_eq!(ss.connect_to_server((1, 40, 1, 40)), Err(KernelError::OutOfMemory));
    assert_eq!(ss.connect_to_server((1, 3, 1, 3)), Ok(4));
}

#[test]
fn queue_to_missing_server_fails() {
    let mut ss = boot3();
    let env = xous::MessageEnvelope {
        sender: xous::MessageSender::from_usize(0),
        body: xous::Message::Scalar(xous::ScalarMessage::from_usize(1, 0, 0, 0, 0)),
    };
    assert_eq!(ss.queue_server_message(40, 1, env), Err(KernelError::ServerNotFound));
    let env = xous::MessageEnvelope {
        sender: xous::MessageSender::from_usize(0),
        body: xous::Message::Scalar(xous::ScalarMessage::from_usize(1, 0, 0, 0, 0)),
    };
    assert_eq!(ss.queue_server_message(3, 1, env), Err(KernelError::ServerNotFound));
}

#[test]
fn queue_to_terminated_owner_fails() {
    let mut ss = boot3();
    ss.activate_process_context(2, 0, true, false).unwrap();
    ss.create_server(7).unwrap();
    ss.activate_process_context(1, 0, true, false).unwrap();
    ss.terminate_process(2).unwrap();
    let env = xous::MessageEnvelope {
        sender: xous::MessageSender::from_usize(0),
        body: xous::Message::Scalar(xous::ScalarMessage::from_usize(1, 0, 0, 0, 0)),
    };
    assert_eq!(ss.queue_server_message(0, 1, env), Err(KernelError::ProcessNotFound));
}

#[test]
fn set_context_result_for_missing_process_fails() {
    let mut ss = boot3();
    assert_eq!(ss.set_context_result(12, 2, xous::Result::Ok), Err(KernelError::ProcessNotFound));
    assert_eq!(ss.set_context_result(3, 4, xous::Result::Scalar1(5)), Ok(()));
    assert_eq!(ss.threads[2 * 32 + 4].result, Some(xous::Result::Scalar1(5)));
    assert_eq!(ss.active, ss.processes[0].mapping);
}

#[test]
fn spawn_process_takes_first_free_slot() {
    let mut ss = boot3();
    assert_eq!(ss.spawn_process(0x10, 0x7300_0000), Ok(4));
    assert_eq!(ss.processes[3].state(), ProcessState::Setup(0x10, 0x7300_0000, 131072));
    assert_eq!(ss.processes[3].mapping.get_pid(), 4);
    assert_eq!(ss.processes[3].ppid, 1);
    for _ in 4..32 {
        ss.spawn_process(0, 0).unwrap();
    }
    assert_eq!(ss.spawn_process(0, 0), Err(KernelError::OutOfMemory));
}

#[test]
fn get_process_mut_changes_the_slot() {
    let mut ss = boot3();
    ss.get_process_mut(3).unwrap().ppid = 2;
    assert_eq!(ss.get_process(3).unwrap().ppid, 2);
    assert!(ss.get_process_mut(0).is_err());
}

#[test]
fn runnable_and_defaults() {
    let ss = boot3();
    assert!(ss.processes[1].runnable());
    assert!(!ss.processes[0].runnable());
    assert!(!ss.processes[5].runnable());
    assert_eq!(ProcessState::default(), ProcessState::Free);
    let p = Process::default();
    assert_eq!(p.state(), ProcessState::Free);
    let inner = ProcessInner::default();
    assert_eq!(inner.mem_heap_max, 524288);
    assert_eq!(inner.connection_map, [0u8; 32]);
    assert_eq!(MemoryMapping::empty().get_pid(), 0);
}

#[test]
fn page_flags_come_from_xous() {
    assert_eq!(xous_kernel::abi::page_flags(false), 2);
    assert_eq!(xous_kernel::abi::page_flags(true), 6);
}

#[test]
fn dispatch_plan_follows_call_kind() {
    let terminate = plan_dispatch(22, false);
    assert!(!terminate.respond && !terminate.shutdown);
    let shutdown = plan_dispatch(23, false);
    assert!(!shutdown.respond && shutdown.shutdown);
    let other = plan_dispatch(16, false);
    assert!(other.respond && !other.shutdown);
    let blocked = plan_dispatch(16, true);
    assert!(!blocked.respond && !blocked.shutdown);
}

#[test]
fn frames_round_trip() {
    let words: Vec<u64> = vec![0x0102_0304_0506_0708, 0, u64::MAX, 22, 1, 2, 3, 0xdead_beef];
    let bytes = encode_frame(&words);
    assert_eq!(bytes.len(), 64);
    assert_eq!(&bytes[0..8], &[8, 7, 6, 5, 4, 3, 2, 1]);
    assert_eq!(decode_frame(&bytes), words);
}
