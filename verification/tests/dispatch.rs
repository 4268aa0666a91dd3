use kernel::capability::{CapRights, CapabilityType};
use kernel::common::ErrKind;
use kernel::kernel::{InvLabel, InvokeArgs, Kernel, SysCallNo};
use kernel::sched::TaskState;

fn no_args() -> InvokeArgs {
    InvokeArgs {
        target: CapabilityType::Endpoint,
        obj_size: 0,
        extra_cap: 0,
        dest_slots: Vec::new(),
        src_slot: 0,
        dest_slot: 0,
        vaddr: 0,
        rights: CapRights::full(),
        data: 0,
    }
}

#[test]
fn a_trap_runs_end_to_end_through_the_dispatcher() {
    let mut k = Kernel::boot(4);
    let root = k.boot_cnode(16);
    let ut = k.boot_untyped(4096, false);
    // Give the boot task its CSpace root and start it.
    let t = k.create_task(None, 5, Some(root), None).unwrap();
    assert_eq!(k.schedule_next(), Some(t));
    // Park the Untyped capability in slot 0 so the task can invoke it.
    assert!(k
        .retype(&ut, CapabilityType::Untyped, 2048, &root, &vec![0])
        .is_ok());
    // The task retypes its Untyped into an Endpoint in slot 1.
    let mut args = no_args();
    args.target = CapabilityType::Endpoint;
    args.obj_size = 512;
    // Destination slot index 99 is outside the 16-slot root CNode.
    args.extra_cap = 99;
    args.dest_slots = vec![1];
    let r = k.handle_syscall(SysCallNo::Call, 0, InvLabel::UntypedRetype, &args);
    assert_eq!(r.unwrap_err().e_kind, ErrKind::InvalidOperation);
    // Copying the Untyped capability is refused: it cannot be derived.
    assert!(k.copy_cap(&root, 0, 3, CapRights::full()).is_err()); // Untyped: CanNotDerivable
    let mut k2args = no_args();
    k2args.target = CapabilityType::Endpoint;
    k2args.obj_size = 512;
    k2args.dest_slots = vec![1];
    // A label that does not fit the object's variant is unknown.
    let ep_err = k.handle_syscall(SysCallNo::Call, 0, InvLabel::EndpointSend, &no_args());
    assert_eq!(ep_err.unwrap_err().e_kind, ErrKind::UnknownInvocation);
    // An empty slot for the destination CNode is reported as such.
    k2args.extra_cap = 2;
    let r = k.handle_syscall(SysCallNo::Call, 0, InvLabel::UntypedRetype, &k2args);
    assert_eq!(r.unwrap_err().e_kind, ErrKind::SlotIsEmpty);
}

#[test]
fn send_and_receive_through_invocations() {
    let mut k = Kernel::boot(4);
    let root = k.boot_cnode(16);
    let ut = k.boot_untyped(4096, false);
    assert!(k
        .retype(&ut, CapabilityType::Endpoint, 512, &root, &vec![0])
        .is_ok());
    let a = k.create_task(None, 5, Some(root), None).unwrap();
    let b = k.create_task(None, 4, Some(root), None).unwrap();

    assert_eq!(k.schedule_next(), Some(a));
    let mut args = no_args();
    args.data = 42;
    let r = k.handle_syscall(SysCallNo::Call, 0, InvLabel::EndpointSend, &args);
    assert!(r.is_ok());
    assert_eq!(k.tasks.tasks[a].unwrap().state, TaskState::Blocked);

    assert_eq!(k.schedule_next(), Some(b));
    let got = k
        .handle_syscall(SysCallNo::Call, 0, InvLabel::EndpointRecv, &no_args())
        .unwrap();
    let m = got.unwrap();
    assert_eq!(m.data, 42);
    assert_eq!(k.tasks.tasks[a].unwrap().state, TaskState::Ready);
}

#[test]
fn badges_travel_with_the_message() {
    let mut k = Kernel::boot(4);
    let root = k.boot_cnode(16);
    let ut = k.boot_untyped(4096, false);
    assert!(k
        .retype(&ut, CapabilityType::Endpoint, 512, &root, &vec![0])
        .is_ok());
    let a = k.create_task(None, 5, Some(root), None).unwrap();
    let b = k.create_task(None, 4, Some(root), None).unwrap();
    assert_eq!(k.schedule_next(), Some(a));
    // Send directly through a badged capability value.
    let mut badged = k.lookup(&root, 0).unwrap();
    badged.badge = 77;
    assert!(k.endpoint_send(&badged, 5).is_ok());
    assert_eq!(k.schedule_next(), Some(b));
    let plain = k.lookup(&root, 0).unwrap();
    let m = k.endpoint_recv(&plain).unwrap().unwrap();
    assert_eq!(m.data, 5);
    assert_eq!(m.badge, 77);
}

#[test]
fn yielding_rotates_the_processor() {
    let mut k = Kernel::boot(4);
    let a = k.create_task(None, 5, None, None).unwrap();
    let b = k.create_task(None, 5, None, None).unwrap();
    assert_eq!(k.schedule_next(), Some(a));
    let dummy = no_args();
    assert!(k
        .handle_syscall(SysCallNo::Yield, 0, InvLabel::EndpointSend, &dummy)
        .is_ok());
    assert_eq!(k.tasks.tasks[a].unwrap().state, TaskState::Ready);
    assert_eq!(k.schedule_next(), Some(b));
}

#[test]
fn terminating_a_blocked_task_cleans_its_queue_entry() {
    let mut k = Kernel::boot(4);
    let root = k.boot_cnode(16);
    let ut = k.boot_untyped(4096, false);
    assert!(k
        .retype(&ut, CapabilityType::Endpoint, 512, &root, &vec![0])
        .is_ok());
    let a = k.create_task(None, 5, Some(root), None).unwrap();
    let b = k.create_task(None, 4, Some(root), None).unwrap();
    assert_eq!(k.schedule_next(), Some(a));
    let cap = k.lookup(&root, 0).unwrap();
    assert!(k.endpoint_send(&cap, 1).is_ok());
    assert_eq!(k.tasks.tasks[a].unwrap().state, TaskState::Blocked);

    assert!(k.terminate_task(a).is_ok());
    assert_eq!(k.tasks.tasks[a].unwrap().state, TaskState::Zombie);
    // The dead sender's message is gone with it: the receiver parks.
    assert_eq!(k.schedule_next(), Some(b));
    assert_eq!(k.endpoint_recv(&cap).unwrap(), None);
}

#[test]
fn destroying_a_task_removes_its_root_capabilities() {
    let mut k = Kernel::boot(4);
    let root = k.boot_cnode(16);
    let ut = k.boot_untyped(8192, false);
    // The task's two roots: a CNode in slot 0, a PageTable in slot 1.
    assert!(k
        .retype(&ut, CapabilityType::CNode, 512, &root, &vec![0])
        .is_ok());
    assert!(k
        .retype(&ut, CapabilityType::PageTable, 4096, &root, &vec![1])
        .is_ok());
    let cs_root = k.lookup(&root, 0).unwrap();
    let vs_root = k.lookup(&root, 1).unwrap();
    let t = k.create_task(None, 5, Some(cs_root), Some(vs_root)).unwrap();

    // A wrong slot address is refused and changes nothing.
    assert_eq!(
        k.destroy_task(t, &root, 2, 1).unwrap_err().e_kind,
        ErrKind::SlotIsEmpty
    );
    assert_eq!(
        k.destroy_task(t, &root, 1, 0).unwrap_err().e_kind,
        ErrKind::InvalidOperation
    );
    assert!(k.lookup(&root, 0).is_ok());

    // Destruction terminates the task and removes both roots, after
    // which the Zombie's table slot can be reclaimed.
    assert!(k.destroy_task(t, &root, 0, 1).is_ok());
    assert_eq!(k.tasks.tasks[t].unwrap().state, TaskState::Zombie);
    assert_eq!(
        k.lookup(&root, 0).unwrap_err().e_kind,
        ErrKind::SlotIsEmpty
    );
    assert_eq!(
        k.lookup(&root, 1).unwrap_err().e_kind,
        ErrKind::SlotIsEmpty
    );
    assert!(k.reclaim_task(t).is_ok());
    assert!(k.tasks.tasks[t].is_none());

    // A task that never existed cannot be destroyed.
    assert_eq!(
        k.destroy_task(3, &root, 0, 1).unwrap_err().e_kind,
        ErrKind::ProcessNotFound
    );
}

#[test]
fn create_task_binds_one_table_entry_per_tcb_object() {
    let mut k = Kernel::boot(4);
    let root = k.boot_cnode(16);
    let ut = k.boot_untyped(4096, false);
    assert!(k
        .retype(&ut, CapabilityType::TaskControlBlock, 1024, &root, &vec![0])
        .is_ok());
    assert!(k
        .retype(&ut, CapabilityType::Endpoint, 512, &root, &vec![1])
        .is_ok());
    let tcb = k.lookup(&root, 0).unwrap();
    let ep = k.lookup(&root, 1).unwrap();

    // A non-TCB capability cannot back a task.
    assert_eq!(
        k.create_task(Some(ep), 5, Some(root), None)
            .unwrap_err()
            .e_kind,
        ErrKind::UnexpectedCapType
    );
    let t = k.create_task(Some(tcb), 5, Some(root), None).unwrap();
    assert_eq!(k.tasks.tasks[t].unwrap().tcb_obj, Some(tcb.obj));
    // The same TCB object cannot back a second entry.
    assert_eq!(
        k.create_task(Some(tcb), 4, Some(root), None)
            .unwrap_err()
            .e_kind,
        ErrKind::InvalidOperation
    );
    // Once the first entry is gone, the object is free to back a new one.
    assert!(k.terminate_task(t).is_ok());
    assert!(k.reclaim_task(t).is_ok());
    assert!(k.create_task(Some(tcb), 4, Some(root), None).is_ok());
}
