use xous_kernel::arch::PageEntry;
use xous_kernel::error::KernelError;
use xous_kernel::process::{InitialProcess, ProcessState, DEFAULT_MESSAGE_BASE, DEFAULT_STACK_SIZE, INITIAL_CONTEXT};
use xous_kernel::services::SystemServices;

const PC1: usize = 0x1000_0000;
const SP1: usize = 0x7fff_f000;
const PC2: usize = 0x2000_0100;
const SP2: usize = 0x7fff_e800;
const PC3: usize = 0x3000_0200;
const SP3: usize = 0x7fff_d000;

fn boot(count: usize) -> SystemServices {
    let all = [
        InitialProcess::new(1 << 22, PC1, SP1),
        InitialProcess::new(2 << 22, PC2, SP2),
        InitialProcess::new(3 << 22, PC3, SP3),
    ];
    let mut ss = SystemServices::new();
    ss.init(&all[..count]);
    ss
}

fn envelope(id: usize) -> xous::MessageEnvelope {
    xous::MessageEnvelope {
        sender: xous::MessageSender::from_usize(3 << 24),
        body: xous::Message::Scalar(xous::ScalarMessage::from_usize(id, 1, 2, 3, 4)),
    }
}

#[test]
fn boot_seeds_kernel_and_setup_processes() {
    let ss = boot(2);
    assert_eq!(ss.pid, 1);
    assert_eq!(ss.current_pid(), 1);
    assert_eq!(ss.processes[0].state(), ProcessState::Running(0));
    assert_eq!(ss.processes[0].current_context(), 2);
    assert_eq!(ss.processes[0].ppid, 0);
    assert_eq!(ss.processes[1].state(), ProcessState::Setup(PC2, SP2, 131072));
    assert_eq!(ss.processes[1].ppid, 1);
    assert_eq!(ss.processes[2].state(), ProcessState::Free);
    assert_eq!(ss.active, ss.processes[0].mapping);
    assert_eq!(ss.current_context_nr(), INITIAL_CONTEXT);
    assert!(ss.threads[INITIAL_CONTEXT].valid);
}

#[test]
fn first_activation_sets_up_the_process() {
    let mut ss = boot(2);
    assert_eq!(ss.activate_process_context(2, 0, true, false), Ok(2));
    assert_eq!(ss.pid, 2);
    let t = &ss.threads[32 + 2];
    assert!(t.valid);
    assert_eq!(t.pc, PC2);
    assert_eq!(t.sp, SP2);
    let r = ss.spaces[1].reserved[0];
    assert_eq!(r.size, DEFAULT_STACK_SIZE + 4096);
    assert_eq!(r.size, 131072 + 4096);
    assert_eq!(r.base, (SP2 & !0xfff) - DEFAULT_STACK_SIZE);
    assert_eq!(r.flags, 6);
    assert_eq!(ss.processes[1].state(), ProcessState::Running(0));
    assert_eq!(ss.processes[0].state(), ProcessState::Ready(1 << 2));
    assert_eq!(ss.active, ss.processes[1].mapping);
}

#[test]
fn ipc_setup_creates_and_connects() {
    let mut ss = boot(3);
    ss.activate_process_context(2, 0, true, false).unwrap();
    let sid = ss.create_server(7).unwrap();
    assert_eq!(sid, (2, 7, 2, 7));
    assert_eq!(ss.server_from_sidx(0).unwrap().sid, (2, 7, 2, 7));
    assert_eq!(ss.server_from_sidx(0).unwrap().pid, 2);
    ss.activate_process_context(3, 0, true, false).unwrap();
    assert_eq!(ss.connect_to_server(sid), Ok(1));
    assert_eq!(ss.inners[2].connection_map[0], 1);
    let before = ss.inners[2].connection_map;
    assert_eq!(ss.connect_to_server(sid), Ok(1));
    assert_eq!(ss.inners[2].connection_map, before);
    assert_eq!(ss.sidx_from_cid(1), Some(0));
}

#[test]
fn blocking_receive_is_woken_with_the_message() {
    let mut ss = boot(3);
    ss.activate_process_context(2, 0, true, false).unwrap();
    let sid = ss.create_server(7).unwrap();
    let blocked_ctx = ss.current_context_nr();
    // PID 2 blocks in ReceiveMessage: no response is sent and it sleeps.
    let plan = xous_kernel::hosted::plan_dispatch(15, true);
    assert!(!plan.respond);
    ss.activate_process_context(3, 0, false, false).unwrap();
    assert_eq!(ss.processes[1].state(), ProcessState::Sleeping);
    let cid = ss.connect_to_server(sid).unwrap();
    let sidx = ss.sidx_from_cid(cid).unwrap();
    assert_eq!(ss.queue_server_message(sidx, 2, envelope(9)), Ok(()));
    assert_eq!(ss.server_from_sidx(sidx).unwrap().queue_len(), 1);
    assert_eq!(ss.active, ss.processes[2].mapping);
    ss.ready_context(2, blocked_ctx).unwrap();
    assert_eq!(ss.processes[1].state(), ProcessState::Ready(1 << blocked_ctx));
    ss.set_context_result(2, blocked_ctx, xous::Result::Message(envelope(9))).unwrap();
    assert_eq!(ss.threads[32 + blocked_ctx].result, Some(xous::Result::Message(envelope(9))));
    assert_eq!(ss.active, ss.processes[2].mapping);
}

#[test]
fn memory_send_moves_the_page() {
    let mut ss = boot(3);
    ss.activate_process_context(3, 0, true, false).unwrap();
    ss.spaces[2].pages.insert(0x1000, PageEntry { phys: 0x9_0000, flags: 6, user: true });
    let v = ss.send_memory(0x1000, 2, 4096, true, false).unwrap();
    assert_eq!(v, DEFAULT_MESSAGE_BASE);
    assert!(ss.spaces[2].pages.get(&0x1000).is_none());
    assert_eq!(ss.spaces[1].pages.get(&v), Some(&PageEntry { phys: 0x9_0000, flags: 6, user: true }));
    assert_eq!(ss.active, ss.processes[2].mapping);
    assert_eq!(ss.inners[1].mem_message_last, DEFAULT_MESSAGE_BASE + 4096);
}

#[test]
fn read_only_send_maps_without_write() {
    let mut ss = boot(3);
    ss.activate_process_context(3, 0, true, false).unwrap();
    ss.spaces[2].pages.insert(0x1000, PageEntry { phys: 0x9_0000, flags: 6, user: true });
    ss.spaces[2].pages.insert(0x2000, PageEntry { phys: 0x9_1000, flags: 6, user: true });
    let v = ss.send_memory(0x1000, 2, 8192, false, false).unwrap();
    assert_eq!(ss.spaces[1].pages.get(&v).unwrap().flags, 2);
    assert_eq!(ss.spaces[1].pages.get(&(v + 4096)).unwrap().phys, 0x9_1000);
    assert!(ss.spaces[2].pages.is_empty());
}

#[test]
fn send_of_unmapped_page_fails_and_unmaps_the_rest() {
    let mut ss = boot(3);
    ss.activate_process_context(3, 0, true, false).unwrap();
    ss.spaces[2].pages.insert(0x1000, PageEntry { phys: 0x9_0000, flags: 6, user: true });
    assert_eq!(ss.send_memory(0x1000, 2, 8192, true, false), Err(KernelError::BadAddress));
    assert!(ss.spaces[2].pages.is_empty());
    assert!(ss.spaces[1].pages.is_empty());
}

#[test]
fn send_to_missing_process_fails() {
    let mut ss = boot(3);
    ss.spaces[0].pages.insert(0x1000, PageEntry { phys: 0x9_0000, flags: 6, user: true });
    assert_eq!(ss.send_memory(0x1000, 9, 4096, true, false), Err(KernelError::ProcessNotFound));
    assert!(ss.spaces[0].pages.is_empty());
    assert_eq!(ss.active, ss.processes[0].mapping);
}

#[test]
fn terminate_frees_the_slot() {
    let mut ss = boot(3);
    ss.activate_process_context(2, 0, true, false).unwrap();
    let sid = ss.create_server(7).unwrap();
    ss.activate_process_context(1, 0, true, false).unwrap();
    assert_eq!(ss.terminate_process(2), Ok(()));
    assert_eq!(ss.processes[1].state(), ProcessState::Free);
    assert_eq!(ss.server_from_sidx(0).unwrap().sid, sid);
    assert_eq!(ss.activate_process_context(2, 0, true, false), Err(KernelError::ProcessNotFound));
    assert_eq!(ss.get_process(2).err(), Some(KernelError::ProcessNotFound));
}

#[test]
fn terminate_of_missing_process_fails() {
    let mut ss = boot(2);
    assert_eq!(ss.terminate_process(5), Err(KernelError::ProcessNotFound));
    assert_eq!(ss.terminate_process(0), Err(KernelError::ProcessNotFound));
}
