use kernel::common::{ErrKind, Message};
use kernel::endpoint::Endpoint;
use kernel::sched::{TaskState, TaskTable};

fn msg(data: usize) -> Message {
    Message { data, badge: 0 }
}

#[test]
fn send_blocks_without_a_receiver_and_rendezvouses_later() {
    // Task A sends with no waiting receiver: A blocks. Task B then
    // receives: both become Ready and B observes exactly A's message.
    let mut tt = TaskTable::new(4);
    let a = tt.create_task(5, None, None, None).unwrap();
    let b = tt.create_task(4, None, None, None).unwrap();
    let mut ep = Endpoint::new(4);

    assert_eq!(tt.schedule(), Some(a));
    assert!(ep.send(&mut tt, msg(42)).is_ok());
    assert_eq!(tt.tasks[a].unwrap().state, TaskState::Blocked);

    assert_eq!(tt.schedule(), Some(b));
    let got = ep.receive(&mut tt).unwrap();
    assert_eq!(got, Some(msg(42)));
    assert_eq!(tt.tasks[a].unwrap().state, TaskState::Ready);
    // B rendezvoused immediately and stays on the processor.
    assert_eq!(tt.tasks[b].unwrap().state, TaskState::Running);
}

#[test]
fn receive_blocks_without_a_sender_and_gets_the_mailbox_later() {
    let mut tt = TaskTable::new(4);
    let a = tt.create_task(5, None, None, None).unwrap();
    let b = tt.create_task(4, None, None, None).unwrap();
    let mut ep = Endpoint::new(4);

    assert_eq!(tt.schedule(), Some(a));
    assert_eq!(ep.receive(&mut tt).unwrap(), None);
    assert_eq!(tt.tasks[a].unwrap().state, TaskState::Blocked);

    assert_eq!(tt.schedule(), Some(b));
    assert!(ep.send(&mut tt, msg(7)).is_ok());
    assert_eq!(tt.tasks[a].unwrap().state, TaskState::Ready);
    // The message waits in the receiver's mailbox, delivered unmodified.
    assert_eq!(tt.tasks[a].unwrap().mailbox, Some(msg(7)));
}

#[test]
fn messages_arrive_exactly_once_in_send_order() {
    // Three sends queue in order; three receives observe exactly those
    // messages, oldest first, none duplicated, none lost.
    let mut tt = TaskTable::new(8);
    let senders: Vec<usize> = (0..3).map(|i| tt.create_task(9 - i, None, None, None).unwrap()).collect();
    let rcv = tt.create_task(1, None, None, None).unwrap();
    let mut ep = Endpoint::new(8);

    for (i, s) in senders.iter().enumerate() {
        assert_eq!(tt.schedule(), Some(*s));
        assert!(ep.send(&mut tt, msg(100 + i)).is_ok());
    }
    assert_eq!(tt.schedule(), Some(rcv));
    assert_eq!(ep.receive(&mut tt).unwrap(), Some(msg(100)));
    assert_eq!(ep.receive(&mut tt).unwrap(), Some(msg(101)));
    assert_eq!(ep.receive(&mut tt).unwrap(), Some(msg(102)));
    // All three senders have rendezvoused.
    for s in senders {
        assert_eq!(tt.tasks[s].unwrap().state, TaskState::Ready);
    }
}

#[test]
fn a_full_wait_queue_reports_message_box_is_full() {
    let mut tt = TaskTable::new(4);
    let a = tt.create_task(5, None, None, None).unwrap();
    let b = tt.create_task(4, None, None, None).unwrap();
    let mut ep = Endpoint::new(1);

    assert_eq!(tt.schedule(), Some(a));
    assert!(ep.send(&mut tt, msg(1)).is_ok());
    assert_eq!(tt.schedule(), Some(b));
    let r = ep.send(&mut tt, msg(2));
    assert_eq!(r.unwrap_err().e_kind, ErrKind::MessageBoxIsFull);
    // The refused sender keeps running; nothing was lost.
    assert_eq!(tt.tasks[b].unwrap().state, TaskState::Running);
}

#[test]
fn cancelling_a_parked_sender_leaves_no_orphan() {
    let mut tt = TaskTable::new(4);
    let a = tt.create_task(5, None, None, None).unwrap();
    let b = tt.create_task(4, None, None, None).unwrap();
    let mut ep = Endpoint::new(4);

    assert_eq!(tt.schedule(), Some(a));
    assert!(ep.send(&mut tt, msg(9)).is_ok());
    ep.cancel(a);
    // The cancelled message is never delivered: the next receiver parks.
    assert_eq!(tt.schedule(), Some(b));
    assert_eq!(ep.receive(&mut tt).unwrap(), None);
}
