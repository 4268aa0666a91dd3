//! Synchronous IPC endpoints: a bounded rendezvous queue. At most one of
//! the two wait queues is ever non-empty; a message moves from sender to
//! receiver exactly once, in FIFO order. The endpoint carries a ghost
//! history of sent and delivered messages, which is what the rendezvous
//! exactness law is stated over.

use vstd::prelude::*;

use crate::common::{ErrKind, KernelError, KernelResult, Message};
use crate::sched::{task_at, tcb_with_mailbox, tcb_with_state, TaskState, TaskTable};

verus! {

/// A sender parked in the queue, together with the message it carries.
#[derive(Debug, Clone, Copy, PartialEq, Eq, Structural)]
pub struct Waiter {
    pub task: usize,
    pub msg: Message,
}

/// A bounded synchronous rendezvous endpoint.
pub struct Endpoint {
    /// Senders waiting for a receiver, oldest first.
    pub senders: Vec<Waiter>,
    /// Receivers waiting for a sender, oldest first.
    pub receivers: Vec<usize>,
    /// Bound on either wait queue; exhaustion is `MessageBoxIsFull`.
    pub capacity: usize,
    /// Every message ever accepted by `send`, in send order.
    pub sent: Ghost<Seq<Message>>,
    /// Every message ever handed to a receiver, in delivery order.
    pub received: Ghost<Seq<Message>>,
    /// Number of completed `receive` calls: those already answered plus
    /// those still parked (a cancelled one is uncounted again, like a
    /// cancelled sender's message).
    pub recv_calls: Ghost<nat>,
}

/// The messages still parked with waiting senders, oldest first.
pub open spec fn pending(ep: Endpoint) -> Seq<Message> {
    ep.senders@.map(|i: int, w: Waiter| w.msg)
}

impl Endpoint {
    /// Rendezvous semantics: a sender only queues when no receiver waits
    /// and vice versa, queues respect the bound, and the history balances:
    /// what was sent is exactly what was delivered plus what still waits.
    pub open spec fn wf(self) -> bool {
        &&& self.senders@.len() == 0 || self.receivers@.len() == 0
        &&& self.senders@.len() <= self.capacity
        &&& self.receivers@.len() <= self.capacity
        &&& self.sent@ == self.received@ + pending(self)
        &&& self.recv_calls@ == self.received@.len() + self.receivers@.len()
    }

    /// Every task parked in either queue is a live, `Blocked` table
    /// entry, and no task is parked twice.
    pub open spec fn queues_wf(self, tasks: Seq<Option<crate::sched::Tcb>>) -> bool {
        &&& forall|i: int|
            0 <= i < self.senders@.len() ==> task_at(tasks, (#[trigger] self.senders@[i]).task)
                && tasks[self.senders@[i].task as int]->0.state == TaskState::Blocked
        &&& forall|i: int|
            0 <= i < self.receivers@.len() ==> task_at(tasks, #[trigger] self.receivers@[i])
                && tasks[self.receivers@[i] as int]->0.state == TaskState::Blocked
        &&& forall|i: int, j: int|
            0 <= i < j < self.senders@.len() ==> self.senders@[i].task != self.senders@[j].task
        &&& forall|i: int, j: int|
            0 <= i < j < self.receivers@.len() ==> self.receivers@[i] != self.receivers@[j]
    }

    pub fn new(capacity: usize) -> (r: Endpoint)
        ensures
            r.wf(),
            r.senders@.len() == 0,
            r.receivers@.len() == 0,
            r.capacity == capacity,
            r.sent@.len() == 0,
            r.received@.len() == 0,
            r.recv_calls@ == 0,
            forall|tasks: Seq<Option<crate::sched::Tcb>>| r.queues_wf(tasks),
    {
        let r = Endpoint {
            senders: Vec::new(),
            receivers: Vec::new(),
            capacity,
            sent: Ghost(Seq::empty()),
            received: Ghost(Seq::empty()),
            recv_calls: Ghost(0),
        };
        proof {
            assert(r.sent@ =~= r.received@ + pending(r));
        }
        r
    }

    /// `send(msg)` by the running task. If a receiver is waiting, the
    /// message is delivered to the oldest one and that receiver becomes
    /// Ready, the sender staying on the processor. Otherwise the sender
    /// parks in the queue and blocks, failing `MessageBoxIsFull` only if
    /// the queue is at capacity.
    pub fn send(&mut self, tasks: &mut TaskTable, msg: Message) -> (r: KernelResult<()>)
        requires
            old(self).wf(),
            old(tasks).wf(),
            old(self).queues_wf(old(tasks).tasks@),
            old(tasks).running is Some,
        ensures
            final(self).wf(),
            final(tasks).wf(),
            final(self).queues_wf(final(tasks).tasks@),
            final(self).capacity == old(self).capacity,
            if old(self).receivers@.len() > 0 {
                // Immediate rendezvous with the oldest waiting receiver.
                let rcv = old(self).receivers@[0];
                &&& r is Ok
                &&& final(self).receivers@ == old(self).receivers@.subrange(
                    1,
                    old(self).receivers@.len() as int,
                )
                &&& final(self).senders@ == old(self).senders@
                &&& final(self).sent@ == old(self).sent@.push(msg)
                &&& final(self).received@ == old(self).received@.push(msg)
                &&& final(tasks).tasks@ == old(tasks).tasks@.update(
                    rcv as int,
                    Some(
                        tcb_with_mailbox(
                            tcb_with_state(old(tasks).tasks@[rcv as int]->0, TaskState::Ready),
                            Some(msg),
                        ),
                    ),
                )
                &&& final(tasks).running == old(tasks).running
            } else if old(self).senders@.len() == old(self).capacity {
                &&& r matches Err(e) && e.e_kind == ErrKind::MessageBoxIsFull
                &&& *final(self) == *old(self)
                &&& *final(tasks) == *old(tasks)
            } else {
                // No receiver: park the sender and block it.
                &&& r is Ok
                &&& final(self).senders@ == old(self).senders@.push(
                    Waiter { task: old(tasks).running->0, msg },
                )
                &&& final(self).receivers@ == old(self).receivers@
                &&& final(self).sent@ == old(self).sent@.push(msg)
                &&& final(self).received@ == old(self).received@
                &&& final(tasks).tasks@ == old(tasks).tasks@.update(
                    old(tasks).running->0 as int,
                    Some(
                        tcb_with_state(
                            old(tasks).tasks@[old(tasks).running->0 as int]->0,
                            TaskState::Blocked,
                        ),
                    ),
                )
                &&& final(tasks).running is None
                &&& final(tasks).ready@ == old(tasks).ready@
            },
    {
        if self.receivers.len() > 0 {
            let rcv = self.receivers.remove(0);
            tasks.unblock(rcv, Some(msg));
            proof {
                self.sent@ = self.sent@.push(msg);
                self.received@ = self.received@.push(msg);
                assert(pending(*self) =~= pending(*old(self)));
                assert(self.sent@ =~= self.received@ + pending(*self));
                assert forall|i: int|
                    0 <= i < self.receivers@.len() implies task_at(
                    tasks.tasks@,
                    #[trigger] self.receivers@[i],
                ) && tasks.tasks@[self.receivers@[i] as int]->0.state == TaskState::Blocked by {
                    assert(self.receivers@[i] == old(self).receivers@[i + 1]);
                    assert(old(self).receivers@[i + 1] != old(self).receivers@[0]);
                }
                assert forall|i: int, j: int|
                    0 <= i < j < self.receivers@.len() implies self.receivers@[i]
                    != self.receivers@[j] by {
                    assert(self.receivers@[i] == old(self).receivers@[i + 1]);
                    assert(self.receivers@[j] == old(self).receivers@[j + 1]);
                }
            }
            Ok(())
        } else if self.senders.len() == self.capacity {
            Err(KernelError::new(ErrKind::MessageBoxIsFull))
        } else {
            let snd = match tasks.running {
                Some(t) => t,
                None => 0,
            };
            self.senders.push(Waiter { task: snd, msg });
            tasks.block_running();
            proof {
                self.sent@ = self.sent@.push(msg);
                assert(pending(*self) =~= pending(*old(self)).push(msg));
                assert(self.sent@ =~= self.received@ + pending(*self));
                assert forall|i: int|
                    0 <= i < self.senders@.len() implies task_at(
                    tasks.tasks@,
                    (#[trigger] self.senders@[i]).task,
                ) && tasks.tasks@[self.senders@[i].task as int]->0.state == TaskState::Blocked by {
                    if i < old(self).senders@.len() {
                        assert(self.senders@[i] == old(self).senders@[i]);
                        assert(old(tasks).tasks@[self.senders@[i].task as int]->0.state
                            == TaskState::Blocked);
                        assert(self.senders@[i].task != snd);
                    }
                }
                assert forall|i: int, j: int|
                    0 <= i < j < self.senders@.len() implies self.senders@[i].task
                    != self.senders@[j].task by {
                    if j < old(self).senders@.len() {
                    } else {
                        assert(self.senders@[i] == old(self).senders@[i]);
                        assert(old(tasks).tasks@[self.senders@[i].task as int]->0.state
                            == TaskState::Blocked);
                    }
                }
            }
            Ok(())
        }
    }

    /// `receive()` by the running task. If a sender is waiting, the oldest
    /// one's message is returned at once and that sender becomes Ready.
    /// Otherwise the receiver parks (`Ok(None)`) and blocks; the message
    /// arrives in its mailbox when a sender rendezvouses. Fails
    /// `MessageBoxIsFull` only if the receiver queue is at capacity.
    pub fn receive(&mut self, tasks: &mut TaskTable) -> (r: KernelResult<Option<Message>>)
        requires
            old(self).wf(),
            old(tasks).wf(),
            old(self).queues_wf(old(tasks).tasks@),
            old(tasks).running is Some,
        ensures
            final(self).wf(),
            final(tasks).wf(),
            final(self).queues_wf(final(tasks).tasks@),
            final(self).capacity == old(self).capacity,
            if old(self).senders@.len() > 0 {
                // Immediate rendezvous with the oldest waiting sender.
                let w = old(self).senders@[0];
                &&& r == Ok::<Option<Message>, KernelError>(Some(w.msg))
                &&& final(self).senders@ == old(self).senders@.subrange(
                    1,
                    old(self).senders@.len() as int,
                )
                &&& final(self).receivers@ == old(self).receivers@
                &&& final(self).sent@ == old(self).sent@
                &&& final(self).received@ == old(self).received@.push(w.msg)
                &&& final(self).recv_calls@ == old(self).recv_calls@ + 1
                &&& final(tasks).tasks@ == old(tasks).tasks@.update(
                    w.task as int,
                    Some(tcb_with_state(old(tasks).tasks@[w.task as int]->0, TaskState::Ready)),
                )
                &&& final(tasks).running == old(tasks).running
            } else if old(self).receivers@.len() == old(self).capacity {
                &&& r matches Err(e) && e.e_kind == ErrKind::MessageBoxIsFull
                &&& *final(self) == *old(self)
                &&& *final(tasks) == *old(tasks)
            } else {
                // No sender: park the receiver and block it.
                &&& r == Ok::<Option<Message>, KernelError>(None)
                &&& final(self).receivers@ == old(self).receivers@.push(old(tasks).running->0)
                &&& final(self).senders@ == old(self).senders@
                &&& final(self).sent@ == old(self).sent@
                &&& final(self).received@ == old(self).received@
                &&& final(self).recv_calls@ == old(self).recv_calls@ + 1
                &&& final(tasks).tasks@ == old(tasks).tasks@.update(
                    old(tasks).running->0 as int,
                    Some(
                        tcb_with_state(
                            old(tasks).tasks@[old(tasks).running->0 as int]->0,
                            TaskState::Blocked,
                        ),
                    ),
                )
                &&& final(tasks).running is None
                &&& final(tasks).ready@ == old(tasks).ready@
            },
    {
        if self.senders.len() > 0 {
            let w = self.senders.remove(0);
            tasks.unblock(w.task, None);
            proof {
                self.received@ = self.received@.push(w.msg);
                self.recv_calls@ = self.recv_calls@ + 1;
                assert(pending(*old(self)) =~= pending(*self).insert(0, w.msg));
                assert(old(self).received@ + pending(*old(self)) =~= self.received@ + pending(
                    *self,
                ));
                assert(self.sent@ =~= self.received@ + pending(*self));
                assert forall|i: int|
                    0 <= i < self.senders@.len() implies task_at(
                    tasks.tasks@,
                    (#[trigger] self.senders@[i]).task,
                ) && tasks.tasks@[self.senders@[i].task as int]->0.state == TaskState::Blocked by {
                    assert(self.senders@[i] == old(self).senders@[i + 1]);
                    assert(old(self).senders@[i + 1].task != old(self).senders@[0].task);
                }
                assert forall|i: int, j: int|
                    0 <= i < j < self.senders@.len() implies self.senders@[i].task
                    != self.senders@[j].task by {
                    assert(self.senders@[i] == old(self).senders@[i + 1]);
                    assert(self.senders@[j] == old(self).senders@[j + 1]);
                }
            }
            Ok(Some(w.msg))
        } else if self.receivers.len() == self.capacity {
            Err(KernelError::new(ErrKind::MessageBoxIsFull))
        } else {
            let rcv = match tasks.running {
                Some(t) => t,
                None => 0,
            };
            self.receivers.push(rcv);
            tasks.block_running();
            proof {
                self.recv_calls@ = self.recv_calls@ + 1;
                assert(pending(*self) =~= pending(*old(self)));
                assert(self.sent@ =~= self.received@ + pending(*self));
                assert forall|i: int|
                    0 <= i < self.receivers@.len() implies task_at(
                    tasks.tasks@,
                    #[trigger] self.receivers@[i],
                ) && tasks.tasks@[self.receivers@[i] as int]->0.state == TaskState::Blocked by {
                    if i < old(self).receivers@.len() {
                        assert(self.receivers@[i] == old(self).receivers@[i]);
                        assert(old(tasks).tasks@[self.receivers@[i] as int]->0.state
                            == TaskState::Blocked);
                        assert(self.receivers@[i] != rcv);
                    }
                }
                assert forall|i: int, j: int|
                    0 <= i < j < self.receivers@.len() implies self.receivers@[i]
                    != self.receivers@[j] by {
                    if j < old(self).receivers@.len() {
                    } else {
                        assert(self.receivers@[i] == old(self).receivers@[i]);
                        assert(old(tasks).tasks@[self.receivers@[i] as int]->0.state
                            == TaskState::Blocked);
                    }
                }
            }
            Ok(None)
        }
    }
}

/// `post` is `pre` with one waiter for task `t` removed if present,
/// untouched otherwise.
pub open spec fn waiters_cancelled(pre: Seq<Waiter>, post: Seq<Waiter>, t: usize) -> bool {
    if exists|i: int| 0 <= i < pre.len() && (#[trigger] pre[i]).task == t {
        exists|i: int|
            #![trigger pre.remove(i)]
            0 <= i < pre.len() && pre[i].task == t && post == pre.remove(i)
    } else {
        post == pre
    }
}

impl Endpoint {
    /// Cancellation on task termination: removes `t` from whichever wait
    /// queue it occupies, so no orphaned entry survives the task. A
    /// cancelled sender's message was never delivered and leaves the
    /// sent history with it.
    #[verifier::loop_isolation(false)]
    pub fn cancel(&mut self, t: usize)
        requires
            old(self).wf(),
            forall|i1: int, i2: int|
                0 <= i1 < i2 < old(self).senders@.len() ==> old(self).senders@[i1].task != old(
                    self,
                ).senders@[i2].task,
            forall|i1: int, i2: int|
                0 <= i1 < i2 < old(self).receivers@.len() ==> old(self).receivers@[i1] != old(
                    self,
                ).receivers@[i2],
        ensures
            final(self).wf(),
            final(self).capacity == old(self).capacity,
            final(self).received@ == old(self).received@,
            waiters_cancelled(old(self).senders@, final(self).senders@, t),
            crate::sched::dequeued(old(self).receivers@, final(self).receivers@, t),
            final(self).sent@ == final(self).received@ + pending(*final(self)),
            !in_queues(*final(self), t),
            forall|t2: usize| #[trigger] in_queues(*final(self), t2) ==> in_queues(*old(self), t2),
            forall|ts: Seq<Option<crate::sched::Tcb>>|
                old(self).queues_wf(ts) ==> #[trigger] final(self).queues_wf(ts),
    {
        let slen = self.senders.len();
        let mut i: usize = 0;
        while i < slen
            invariant
                i <= slen,
                *self == *old(self),
                forall|k: int| 0 <= k < i ==> (#[trigger] self.senders@[k]).task != t,
            decreases slen - i,
        {
            if self.senders[i].task == t {
                self.senders.remove(i);
                proof {
                    self.sent@ = self.received@ + pending(*self);
                    assert(old(self).senders@.remove(i as int) == self.senders@);
                    assert(crate::sched::dequeued(
                        old(self).receivers@,
                        self.receivers@,
                        t,
                    )) by {
                        if old(self).receivers@.contains(t) {
                            let w = choose|w: int|
                                0 <= w < old(self).receivers@.len() && old(self).receivers@[w]
                                    == t;
                            assert(old(self).receivers@.len() == 0);
                        }
                    }
                    lemma_after_sender_remove(*old(self), *self, i as int, t);
                }
                return ;
            }
            i += 1;
        }
        let rlen = self.receivers.len();
        let mut j: usize = 0;
        while j < rlen
            invariant
                j <= rlen,
                *self == *old(self),
                forall|k: int| 0 <= k < j ==> self.receivers@[k] != t,
            decreases rlen - j,
        {
            if self.receivers[j] == t {
                self.receivers.remove(j);
                proof {
                    self.recv_calls@ = self.received@.len() + self.receivers@.len();
                    assert(old(self).receivers@.remove(j as int) == self.receivers@);
                    assert(pending(*self) =~= pending(*old(self)));
                    assert(self.sent@ =~= self.received@ + pending(*self));
                    assert(waiters_cancelled(old(self).senders@, self.senders@, t)) by {
                        if exists|w: int|
                            0 <= w < old(self).senders@.len() && (#[trigger] old(
                                self,
                            ).senders@[w]).task == t {
                            let w = choose|w: int|
                                0 <= w < old(self).senders@.len() && (#[trigger] old(
                                    self,
                                ).senders@[w]).task == t;
                            assert(false);
                        }
                    }
                    lemma_after_receiver_remove(*old(self), *self, j as int, t);
                }
                return ;
            }
            j += 1;
        }
        proof {
            assert(self.sent@ =~= self.received@ + pending(*self));
            if exists|w: int|
                0 <= w < old(self).senders@.len() && (#[trigger] old(self).senders@[w]).task
                    == t {
                let w = choose|w: int|
                    0 <= w < old(self).senders@.len() && (#[trigger] old(self).senders@[w]).task
                        == t;
                assert(false);
            }
            if old(self).receivers@.contains(t) {
                let w = choose|w: int|
                    0 <= w < old(self).receivers@.len() && old(self).receivers@[w] == t;
                assert(false);
            }
        }
    }
}

/// Queue facts after removing the one waiting sender entry for `t`.
proof fn lemma_after_sender_remove(pre: Endpoint, post: Endpoint, i: int, t: usize)
    requires
        0 <= i < pre.senders@.len(),
        pre.senders@[i].task == t,
        forall|i1: int, i2: int|
            0 <= i1 < i2 < pre.senders@.len() ==> pre.senders@[i1].task != pre.senders@[i2].task,
        forall|i1: int, i2: int|
            0 <= i1 < i2 < pre.receivers@.len() ==> pre.receivers@[i1] != pre.receivers@[i2],
        pre.receivers@.len() == 0,
        post.senders@ == pre.senders@.remove(i),
        post.receivers@ == pre.receivers@,
    ensures
        !in_queues(post, t),
        forall|t2: usize| #[trigger] in_queues(post, t2) ==> in_queues(pre, t2),
        forall|ts: Seq<Option<crate::sched::Tcb>>|
            pre.queues_wf(ts) ==> #[trigger] post.queues_wf(ts),
{
    assert forall|k: int|
        0 <= k < post.senders@.len() implies (#[trigger] post.senders@[k]).task != t && post.senders@[k]
        == pre.senders@[if k < i {
        k
    } else {
        k + 1
    }] by {
        let k0: int = if k < i {
            k
        } else {
            k + 1
        };
        assert(post.senders@[k] == pre.senders@[k0]);
    }
    assert forall|ts: Seq<Option<crate::sched::Tcb>>| pre.queues_wf(ts) implies #[trigger] post
        .queues_wf(ts) by {
        assert forall|k: int|
            0 <= k < post.senders@.len() implies task_at(
            ts,
            (#[trigger] post.senders@[k]).task,
        ) && ts[post.senders@[k].task as int]->0.state == TaskState::Blocked by {
            let k0: int = if k < i {
                k
            } else {
                k + 1
            };
            assert(post.senders@[k] == pre.senders@[k0]);
        }
        assert forall|a: int, b: int|
            0 <= a < b < post.senders@.len() implies post.senders@[a].task
            != post.senders@[b].task by {
            let a0: int = if a < i {
                a
            } else {
                a + 1
            };
            let b0: int = if b < i {
                b
            } else {
                b + 1
            };
            assert(post.senders@[a] == pre.senders@[a0]);
            assert(post.senders@[b] == pre.senders@[b0]);
        }
    }
}

/// Queue facts after removing the one waiting receiver entry for `t`.
proof fn lemma_after_receiver_remove(pre: Endpoint, post: Endpoint, j: int, t: usize)
    requires
        0 <= j < pre.receivers@.len(),
        pre.receivers@[j] == t,
        forall|i1: int, i2: int|
            0 <= i1 < i2 < pre.receivers@.len() ==> pre.receivers@[i1] != pre.receivers@[i2],
        pre.senders@.len() == 0,
        post.receivers@ == pre.receivers@.remove(j),
        post.senders@ == pre.senders@,
    ensures
        !in_queues(post, t),
        forall|t2: usize| #[trigger] in_queues(post, t2) ==> in_queues(pre, t2),
        forall|ts: Seq<Option<crate::sched::Tcb>>|
            pre.queues_wf(ts) ==> #[trigger] post.queues_wf(ts),
{
    assert forall|k: int|
        0 <= k < post.receivers@.len() implies (#[trigger] post.receivers@[k]) != t
        && post.receivers@[k] == pre.receivers@[if k < j {
        k
    } else {
        k + 1
    }] by {
        let k0: int = if k < j {
            k
        } else {
            k + 1
        };
        assert(post.receivers@[k] == pre.receivers@[k0]);
    }
    assert forall|ts: Seq<Option<crate::sched::Tcb>>| pre.queues_wf(ts) implies #[trigger] post
        .queues_wf(ts) by {
        assert forall|k: int|
            0 <= k < post.receivers@.len() implies task_at(ts, #[trigger] post.receivers@[k])
            && ts[post.receivers@[k] as int]->0.state == TaskState::Blocked by {
            let k0: int = if k < j {
                k
            } else {
                k + 1
            };
            assert(post.receivers@[k] == pre.receivers@[k0]);
        }
        assert forall|a: int, b: int|
            0 <= a < b < post.receivers@.len() implies post.receivers@[a]
            != post.receivers@[b] by {
            let a0: int = if a < j {
                a
            } else {
                a + 1
            };
            let b0: int = if b < j {
                b
            } else {
                b + 1
            };
            assert(post.receivers@[a] == pre.receivers@[a0]);
            assert(post.receivers@[b] == pre.receivers@[b0]);
        }
    }
}

/// Task `t` waits in one of `ep`'s queues.
pub open spec fn in_queues(ep: Endpoint, t: usize) -> bool {
    (exists|i: int| 0 <= i < ep.senders@.len() && (#[trigger] ep.senders@[i]).task == t) || (
    exists|i: int| 0 <= i < ep.receivers@.len() && #[trigger] ep.receivers@[i] == t)
}

/// All endpoints of the kernel at once: each is well-formed with Blocked
/// members, and no task waits on two endpoints.
pub open spec fn eps_wf(eps: Seq<Endpoint>, tasks: Seq<Option<crate::sched::Tcb>>) -> bool {
    &&& forall|e: int|
        0 <= e < eps.len() ==> (#[trigger] eps[e]).wf() && eps[e].queues_wf(tasks)
    &&& forall|e1: int, e2: int, t: usize|
        0 <= e1 < eps.len() && 0 <= e2 < eps.len() && e1 != e2 && #[trigger] in_queues(eps[e1], t)
            && #[trigger] in_queues(eps[e2], t) ==> false
}

/// A `send`/`receive`/`cancel` on one endpoint, touching one task that
/// waits nowhere else, preserves the all-endpoints invariant.
pub proof fn lemma_eps_preserved(
    eps: Seq<Endpoint>,
    eps2: Seq<Endpoint>,
    tasks: Seq<Option<crate::sched::Tcb>>,
    tasks2: Seq<Option<crate::sched::Tcb>>,
    e: int,
    changed: usize,
)
    requires
        eps_wf(eps, tasks),
        eps2.len() == eps.len(),
        0 <= e < eps.len(),
        forall|k: int| 0 <= k < eps.len() && k != e ==> eps2[k] == eps[k],
        eps2[e].wf(),
        eps2[e].queues_wf(tasks2),
        tasks2.len() == tasks.len(),
        forall|t: int| 0 <= t < tasks.len() && t != changed ==> tasks2[t] == tasks[t],
        forall|k: int| 0 <= k < eps.len() && k != e ==> !in_queues(#[trigger] eps[k], changed),
        forall|t: usize| #[trigger] in_queues(eps2[e], t) ==> in_queues(eps[e], t) || t == changed,
    ensures
        eps_wf(eps2, tasks2),
{
    assert forall|k: int| 0 <= k < eps2.len() implies (#[trigger] eps2[k]).wf()
        && eps2[k].queues_wf(tasks2) by {
        if k != e {
            assert(eps2[k] == eps[k]);
            assert(eps[k].queues_wf(tasks));
            assert forall|i: int|
                0 <= i < eps2[k].senders@.len() implies task_at(
                tasks2,
                (#[trigger] eps2[k].senders@[i]).task,
            ) && tasks2[eps2[k].senders@[i].task as int]->0.state == TaskState::Blocked by {
                let wt = eps2[k].senders@[i].task;
                if wt == changed {
                    assert(in_queues(eps[k], changed));
                } else {
                    assert(tasks2[wt as int] == tasks[wt as int]);
                }
            }
            assert forall|i: int|
                0 <= i < eps2[k].receivers@.len() implies task_at(
                tasks2,
                #[trigger] eps2[k].receivers@[i],
            ) && tasks2[eps2[k].receivers@[i] as int]->0.state == TaskState::Blocked by {
                let wt = eps2[k].receivers@[i];
                if wt == changed {
                    assert(in_queues(eps[k], changed));
                } else {
                    assert(tasks2[wt as int] == tasks[wt as int]);
                }
            }
        }
    }
    assert forall|e1: int, e2: int, t: usize|
        0 <= e1 < eps2.len() && 0 <= e2 < eps2.len() && e1 != e2 && #[trigger] in_queues(
            eps2[e1],
            t,
        ) && #[trigger] in_queues(eps2[e2], t) implies false by {
        if e1 == e {
            assert(in_queues(eps[e1], t) || t == changed);
            assert(eps2[e2] == eps[e2]);
            if t == changed {
                assert(!in_queues(eps[e2], changed));
            } else {
                assert(in_queues(eps[e1], t) && in_queues(eps[e2], t));
            }
        } else if e2 == e {
            assert(in_queues(eps[e2], t) || t == changed);
            assert(eps2[e1] == eps[e1]);
            if t == changed {
                assert(!in_queues(eps[e1], changed));
            } else {
                assert(in_queues(eps[e1], t) && in_queues(eps[e2], t));
            }
        } else {
            assert(eps2[e1] == eps[e1] && eps2[e2] == eps[e2]);
        }
    }
}

/// Rendezvous exactness: on any endpoint whose sender queue has drained —
/// in particular after any interleaving of equally many `send` and
/// `receive` calls — the delivered history equals the sent history: every
/// sent message was observed by exactly one receiver, in send order.
pub proof fn lemma_rendezvous_exactness(ep: Endpoint)
    requires
        ep.wf(),
        ep.senders@.len() == 0,
    ensures
        ep.received@ == ep.sent@,
{
    assert(pending(ep) =~= Seq::<Message>::empty());
    assert(ep.received@ + pending(ep) =~= ep.received@);
}

/// Rendezvous exactness over whole interleavings: after any interleaving
/// of equally many completed `send` and `receive` calls on one endpoint
/// (`sent` counts the former, `recv_calls` the latter), both wait queues
/// have drained and every sent message was observed by exactly one
/// receiver, in send order — never lost, never duplicated.
pub proof fn lemma_balanced_interleaving_drains(ep: Endpoint)
    requires
        ep.wf(),
        ep.sent@.len() == ep.recv_calls@,
    ensures
        ep.senders@.len() == 0,
        ep.receivers@.len() == 0,
        ep.received@ == ep.sent@,
{
    assert(ep.sent@.len() == ep.received@.len() + pending(ep).len());
    assert(pending(ep).len() == ep.senders@.len());
    lemma_rendezvous_exactness(ep);
}

/// Delivery order: in every reachable state — even with senders still
/// waiting — what has been delivered is exactly the oldest prefix of
/// what has been sent: FIFO, nothing skipped, nothing duplicated.
pub proof fn lemma_delivery_order(ep: Endpoint)
    requires
        ep.wf(),
    ensures
        ep.received@.len() <= ep.sent@.len(),
        ep.received@ == ep.sent@.take(ep.received@.len() as int),
{
    assert(ep.received@ =~= ep.sent@.take(ep.received@.len() as int));
}

} // verus!
