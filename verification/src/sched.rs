//! Tasks and the scheduler: a fixed-capacity task table, per-task saved
//! register state and root capabilities, and a ready queue with strict
//! priority order and round-robin rotation among equal priorities.

use vstd::prelude::*;

use crate::capability::Capability;
use crate::common::{ErrKind, KernelError, KernelResult, Message};

verus! {

/// The saved register file, restored verbatim on return to user mode.
#[derive(Debug, Clone, Copy)]
pub struct Registers {
    pub pc: usize,
    pub sp: usize,
    pub a: [usize; 8],
}

impl Registers {
    pub fn zeroed() -> (r: Registers)
        ensures
            r == (Registers { pc: 0, sp: 0, a: [0, 0, 0, 0, 0, 0, 0, 0] }),
    {
        Registers { pc: 0, sp: 0, a: [0, 0, 0, 0, 0, 0, 0, 0] }
    }
}

/// Scheduling state of one task.
#[derive(Debug, Clone, Copy, PartialEq, Eq, Structural)]
pub enum TaskState {
    Ready,
    Running,
    /// Waiting in an Endpoint queue for a rendezvous partner.
    Blocked,
    /// Terminated; the table slot is reclaimable.
    Zombie,
}

/// A task control block.
#[derive(Debug, Clone, Copy)]
pub struct Tcb {
    pub state: TaskState,
    pub prio: usize,
    pub cspace_root: Option<Capability>,
    pub vspace_root: Option<Capability>,
    /// The retyped TaskControlBlock object backing this entry (`None`
    /// only for boot-time tasks, which predate retyping).
    pub tcb_obj: Option<usize>,
    pub regs: Registers,
    /// Where a completed rendezvous leaves the received message.
    pub mailbox: Option<Message>,
}

/// `t` with a different scheduling state, all else equal.
pub open spec fn tcb_with_state(t: Tcb, st: TaskState) -> Tcb {
    Tcb {
        state: st,
        prio: t.prio,
        cspace_root: t.cspace_root,
        vspace_root: t.vspace_root,
        tcb_obj: t.tcb_obj,
        regs: t.regs,
        mailbox: t.mailbox,
    }
}

/// `t` with a different mailbox, all else equal.
pub open spec fn tcb_with_mailbox(t: Tcb, m: Option<Message>) -> Tcb {
    Tcb {
        state: t.state,
        prio: t.prio,
        cspace_root: t.cspace_root,
        vspace_root: t.vspace_root,
        tcb_obj: t.tcb_obj,
        regs: t.regs,
        mailbox: m,
    }
}

/// Priority of task `id` (meaningful only when the slot is occupied).
pub open spec fn prio_at(tasks: Seq<Option<Tcb>>, id: usize) -> usize {
    tasks[id as int]->0.prio
}

/// `id` is a live table entry.
pub open spec fn task_at(tasks: Seq<Option<Tcb>>, id: usize) -> bool {
    id < tasks.len() && tasks[id as int] is Some
}

/// `post` is `pre` with `tid` inserted at the tail of its priority class:
/// after every queued task of equal or higher priority, before every
/// strictly lower one. This is what keeps round-robin fair among equals.
pub open spec fn enqueued(
    tasks: Seq<Option<Tcb>>,
    pre: Seq<usize>,
    post: Seq<usize>,
    tid: usize,
) -> bool {
    exists|i: int|
        #![trigger pre.insert(i, tid)]
        0 <= i <= pre.len() && post == pre.insert(i, tid) && (forall|k: int|
            0 <= k < i ==> prio_at(tasks, pre[k]) >= prio_at(tasks, tid)) && (i == pre.len()
            || prio_at(tasks, pre[i]) < prio_at(tasks, tid))
}

/// The task table plus scheduler state.
pub struct TaskTable {
    /// Fixed-capacity table; a `None` entry is a free slot.
    pub tasks: Vec<Option<Tcb>>,
    /// Ready queue: task ids, highest priority first, FIFO within one
    /// priority.
    pub ready: Vec<usize>,
    /// The single task in state `Running`, if any.
    pub running: Option<usize>,
}

/// Queue and table agree: queued ids are live `Ready` tasks, queued once
/// each, in non-increasing priority order; the running task is live,
/// `Running`, not queued, and unique in that state.
pub open spec fn table_wf(
    tasks: Seq<Option<Tcb>>,
    ready: Seq<usize>,
    running: Option<usize>,
) -> bool {
    &&& forall|i: int|
        0 <= i < ready.len() ==> task_at(tasks, #[trigger] ready[i]) && tasks[ready[i] as int]->0.state
            == TaskState::Ready
    &&& forall|i: int, j: int| 0 <= i < j < ready.len() ==> ready[i] != ready[j]
    &&& forall|i: int, j: int|
        0 <= i < j < ready.len() ==> prio_at(tasks, ready[i]) >= prio_at(tasks, ready[j])
    &&& match running {
        Some(t) => task_at(tasks, t) && tasks[t as int]->0.state == TaskState::Running
            && !ready.contains(t),
        None => true,
    }
    &&& forall|id: int|
        0 <= id < tasks.len() && tasks[id] is Some && (#[trigger] tasks[id])->0.state
            == TaskState::Running ==> running == Some(id as usize)
}

/// Rewriting one unqueued, non-`Running` task cannot break the
/// queue/table agreement.
proof fn lemma_wf_touch_unqueued(
    tasks: Seq<Option<Tcb>>,
    ready: Seq<usize>,
    running: Option<usize>,
    t2: Seq<Option<Tcb>>,
    tid: usize,
)
    requires
        table_wf(tasks, ready, running),
        t2.len() == tasks.len(),
        tid < tasks.len(),
        forall|k: int| 0 <= k < tasks.len() && k != tid ==> t2[k] == tasks[k],
        !ready.contains(tid),
        t2[tid as int] is Some ==> t2[tid as int]->0.state != TaskState::Running,
        running is Some ==> running->0 != tid,
    ensures
        table_wf(t2, ready, running),
{
    assert forall|i: int|
        0 <= i < ready.len() implies task_at(t2, #[trigger] ready[i]) && t2[ready[i] as int]->0.state
        == TaskState::Ready && prio_at(t2, ready[i]) == prio_at(tasks, ready[i]) by {
        if ready[i] == tid {
            assert(ready.contains(tid));
        }
        assert(t2[ready[i] as int] == tasks[ready[i] as int]);
    }
    match running {
        Some(t) => {
            assert(t2[t as int] == tasks[t as int]);
        },
        None => {},
    }
}

/// The running task leaving the processor (to Ready or Blocked) leaves
/// the queue/table agreement intact, with nothing running.
proof fn lemma_wf_stop_running(
    tasks: Seq<Option<Tcb>>,
    ready: Seq<usize>,
    t: usize,
    t2: Seq<Option<Tcb>>,
)
    requires
        table_wf(tasks, ready, Some(t)),
        tasks.len() <= usize::MAX,
        t2.len() == tasks.len(),
        t < tasks.len(),
        forall|k: int| 0 <= k < tasks.len() && k != t ==> t2[k] == tasks[k],
        t2[t as int] is Some ==> t2[t as int]->0.state != TaskState::Running,
    ensures
        table_wf(t2, ready, None),
{
    assert forall|i: int|
        0 <= i < ready.len() implies task_at(t2, #[trigger] ready[i]) && t2[ready[i] as int]->0.state
        == TaskState::Ready && prio_at(t2, ready[i]) == prio_at(tasks, ready[i]) by {
        if ready[i] == t {
            assert(ready.contains(t));
        }
        assert(t2[ready[i] as int] == tasks[ready[i] as int]);
    }
    assert forall|id: int|
        0 <= id < t2.len() && t2[id] is Some && (#[trigger] t2[id])->0.state == TaskState::Running
        implies false by {
        if id == t {
            assert(t2[t as int] is Some);
            assert(t2[t as int]->0.state != TaskState::Running);
        } else {
            assert(t2[id] == tasks[id]);
            assert(tasks[id]->0.state == TaskState::Running);
            assert(Some(t) == Some(id as usize));
            assert(id as usize == id);
        }
    }
}

impl TaskTable {
    /// The scheduler invariant; see `table_wf`.
    pub open spec fn wf(self) -> bool {
        table_wf(self.tasks@, self.ready@, self.running)
    }

    /// An empty table of `capacity` slots.
    pub fn new(capacity: usize) -> (r: TaskTable)
        ensures
            r.wf(),
            r.tasks@.len() == capacity,
            forall|i: int| 0 <= i < capacity ==> r.tasks@[i] is None,
            r.ready@.len() == 0,
            r.running is None,
    {
        let mut tasks: Vec<Option<Tcb>> = Vec::new();
        let mut i: usize = 0;
        while i < capacity
            invariant
                i <= capacity,
                tasks@.len() == i,
                forall|k: int| 0 <= k < i ==> tasks@[k] is None,
            decreases capacity - i,
        {
            tasks.push(None);
            i += 1;
        }
        TaskTable { tasks, ready: Vec::new(), running: None }
    }

    /// Creates a task in the first free table slot and enqueues it
    /// Ready; `tcb_obj` records which retyped TaskControlBlock object
    /// backs the entry (the dispatcher checks the capability and the
    /// object's uniqueness before calling). Fails `TooManyTasks` exactly
    /// when every slot is occupied.
    #[verifier::loop_isolation(false)]
    pub fn create_task(
        &mut self,
        prio: usize,
        cspace_root: Option<Capability>,
        vspace_root: Option<Capability>,
        tcb_obj: Option<usize>,
    ) -> (r: KernelResult<usize>)
        requires
            old(self).wf(),
        ensures
            final(self).wf(),
            match r {
                Ok(tid) => {
                    &&& tid < old(self).tasks@.len()
                    &&& old(self).tasks@[tid as int] is None
                    &&& forall|k: int|
                        0 <= k < tid ==> old(self).tasks@[k] is Some
                    &&& final(self).tasks@ == old(self).tasks@.update(
                        tid as int,
                        Some(
                            Tcb {
                                state: TaskState::Ready,
                                prio,
                                cspace_root,
                                vspace_root,
                                tcb_obj,
                                regs: Registers { pc: 0, sp: 0, a: [0, 0, 0, 0, 0, 0, 0, 0] },
                                mailbox: None,
                            },
                        ),
                    )
                    &&& enqueued(final(self).tasks@, old(self).ready@, final(self).ready@, tid)
                    &&& final(self).running == old(self).running
                },
                Err(e) => {
                    &&& e.e_kind == ErrKind::TooManyTasks
                    &&& forall|k: int| 0 <= k < old(self).tasks@.len() ==> old(self).tasks@[k] is Some
                    &&& *final(self) == *old(self)
                },
            },
    {
        let n = self.tasks.len();
        let mut tid: usize = 0;
        while tid < n
            invariant
                tid <= n,
                self.tasks == old(self).tasks,
                self.ready == old(self).ready,
                self.running == old(self).running,
                forall|k: int| 0 <= k < tid ==> self.tasks@[k] is Some,
            decreases n - tid,
        {
            if self.tasks[tid].is_none() {
                let tcb = Tcb {
                    state: TaskState::Ready,
                    prio,
                    cspace_root,
                    vspace_root,
                    tcb_obj,
                    regs: Registers::zeroed(),
                    mailbox: None,
                };
                proof {
                    if old(self).ready@.contains(tid) {
                        let w = choose|w: int|
                            0 <= w < old(self).ready@.len() && old(self).ready@[w] == tid;
                        assert(task_at(old(self).tasks@, old(self).ready@[w]));
                    }
                }
                self.tasks.set(tid, Some(tcb));
                proof {
                    lemma_wf_touch_unqueued(
                        old(self).tasks@,
                        old(self).ready@,
                        old(self).running,
                        self.tasks@,
                        tid,
                    );
                    match old(self).running {
                        Some(t) => {
                            assert(task_at(old(self).tasks@, t));
                        },
                        None => {},
                    }
                }
                self.enqueue(tid);
                return Ok(tid);
            }
            tid += 1;
        }
        Err(KernelError::new(ErrKind::TooManyTasks))
    }

    /// Inserts Ready task `tid` at the tail of its priority class.
    #[verifier::loop_isolation(false)]
    fn enqueue(&mut self, tid: usize)
        requires
            old(self).wf(),
            task_at(old(self).tasks@, tid),
            old(self).tasks@[tid as int]->0.state == TaskState::Ready,
            !old(self).ready@.contains(tid),
            old(self).running != Some(tid),
        ensures
            final(self).wf(),
            final(self).tasks@ == old(self).tasks@,
            final(self).running == old(self).running,
            enqueued(old(self).tasks@, old(self).ready@, final(self).ready@, tid),
    {
        let p = match &self.tasks[tid] {
            Some(t) => t.prio,
            None => 0,
        };
        let mut i: usize = 0;
        let qlen = self.ready.len();
        while i < qlen
            invariant
                i <= qlen,
                forall|k: int| 0 <= k < i ==> prio_at(self.tasks@, self.ready@[k]) >= p,
            decreases qlen - i,
        {
            let q = self.ready[i];
            let qp = match &self.tasks[q] {
                Some(t) => t.prio,
                None => 0,
            };
            if qp < p {
                break ;
            }
            i += 1;
        }
        self.ready.insert(i, tid);
        proof {
            let pre = old(self).ready@;
            let cur = self.ready@;
            assert(cur == pre.insert(i as int, tid));
            assert forall|a: int, b: int|
                0 <= a < b < cur.len() implies cur[a] != cur[b] && prio_at(self.tasks@, cur[a])
                >= prio_at(self.tasks@, cur[b]) by {
                if a < i && b < i {
                } else if a < i && b == i {
                } else if a < i && b > i {
                    assert(cur[b] == pre[b - 1]);
                } else if a == i && b > i {
                    assert(cur[b] == pre[b - 1]);
                } else {
                    assert(cur[a] == pre[a - 1]);
                    assert(cur[b] == pre[b - 1]);
                }
            }
            assert forall|k: int|
                0 <= k < cur.len() implies task_at(self.tasks@, #[trigger] cur[k])
                && self.tasks@[cur[k] as int]->0.state == TaskState::Ready by {
                if k > i {
                    assert(cur[k] == pre[k - 1]);
                }
            }
            match self.running {
                Some(t) => {
                    assert forall|k: int| 0 <= k < cur.len() implies cur[k] != t by {
                        if k > i {
                            assert(cur[k] == pre[k - 1]);
                        }
                    }
                    assert(!cur.contains(t));
                },
                None => {},
            }
        }
    }

    /// Picks the next task to run: the head of the ready queue, which the
    /// queue order guarantees has maximal priority among all queued tasks
    /// and entered the queue before any other queued task of that
    /// priority. Returns `None` when nothing is runnable.
    pub fn schedule(&mut self) -> (r: Option<usize>)
        requires
            old(self).wf(),
            old(self).running is None,
        ensures
            final(self).wf(),
            match r {
                Some(tid) => {
                    &&& old(self).ready@.len() > 0
                    &&& tid == old(self).ready@[0]
                    &&& forall|k: int|
                        0 <= k < old(self).ready@.len() ==> prio_at(
                            old(self).tasks@,
                            #[trigger] old(self).ready@[k],
                        ) <= prio_at(old(self).tasks@, tid)
                    &&& final(self).ready@ == old(self).ready@.subrange(
                        1,
                        old(self).ready@.len() as int,
                    )
                    &&& final(self).running == Some(tid)
                    &&& final(self).tasks@ == old(self).tasks@.update(
                        tid as int,
                        Some(tcb_with_state(old(self).tasks@[tid as int]->0, TaskState::Running)),
                    )
                },
                None => {
                    &&& old(self).ready@.len() == 0
                    &&& *final(self) == *old(self)
                },
            },
    {
        if self.ready.len() == 0 {
            return None;
        }
        let tid = self.ready.remove(0);
        set_task_state(&mut self.tasks, tid, TaskState::Running);
        self.running = Some(tid);
        proof {
            let pre = old(self).ready@;
            assert forall|k: int|
                0 <= k < self.ready@.len() implies task_at(self.tasks@, #[trigger] self.ready@[k])
                && self.tasks@[self.ready@[k] as int]->0.state == TaskState::Ready && self.ready@[k]
                != tid by {
                assert(self.ready@[k] == pre[k + 1]);
            }
        }
        Some(tid)
    }

    /// Timer preemption: the running task goes back to Ready at the tail
    /// of its priority class (round-robin), and the processor is free for
    /// `schedule` to hand out again.
    pub fn preempt(&mut self)
        requires
            old(self).wf(),
            old(self).running is Some,
        ensures
            final(self).wf(),
            final(self).running is None,
            final(self).tasks@ == old(self).tasks@.update(
                old(self).running->0 as int,
                Some(
                    tcb_with_state(
                        old(self).tasks@[old(self).running->0 as int]->0,
                        TaskState::Ready,
                    ),
                ),
            ),
            enqueued(
                final(self).tasks@,
                old(self).ready@,
                final(self).ready@,
                old(self).running->0,
            ),
    {
        let tid = match self.running {
            Some(t) => t,
            None => 0,
        };
        set_task_state(&mut self.tasks, tid, TaskState::Ready);
        self.running = None;
        proof {
            assert(old(self).tasks@.len() == vstd::std_specs::vec::spec_vec_len(&old(self).tasks));
            lemma_wf_stop_running(old(self).tasks@, old(self).ready@, tid, self.tasks@);
        }
        self.enqueue(tid);
    }

    /// The running task blocks on an Endpoint: it leaves the processor
    /// and is parked until a rendezvous partner arrives.
    pub fn block_running(&mut self)
        requires
            old(self).wf(),
            old(self).running is Some,
        ensures
            final(self).wf(),
            final(self).running is None,
            final(self).ready@ == old(self).ready@,
            final(self).tasks@ == old(self).tasks@.update(
                old(self).running->0 as int,
                Some(
                    tcb_with_state(
                        old(self).tasks@[old(self).running->0 as int]->0,
                        TaskState::Blocked,
                    ),
                ),
            ),
    {
        let tid = match self.running {
            Some(t) => t,
            None => 0,
        };
        set_task_state(&mut self.tasks, tid, TaskState::Blocked);
        self.running = None;
        proof {
            assert(old(self).tasks@.len() == vstd::std_specs::vec::spec_vec_len(&old(self).tasks));
            lemma_wf_stop_running(old(self).tasks@, old(self).ready@, tid, self.tasks@);
        }
    }

    /// A rendezvous completed: the Blocked task `tid` becomes Ready (with
    /// `mailbox` delivered) and rejoins the queue at the tail of its
    /// priority class.
    pub fn unblock(&mut self, tid: usize, mailbox: Option<Message>)
        requires
            old(self).wf(),
            task_at(old(self).tasks@, tid),
            old(self).tasks@[tid as int]->0.state == TaskState::Blocked,
        ensures
            final(self).wf(),
            final(self).running == old(self).running,
            final(self).tasks@ == old(self).tasks@.update(
                tid as int,
                Some(
                    tcb_with_mailbox(
                        tcb_with_state(old(self).tasks@[tid as int]->0, TaskState::Ready),
                        match mailbox {
                            Some(m) => Some(m),
                            None => old(self).tasks@[tid as int]->0.mailbox,
                        },
                    ),
                ),
            ),
            enqueued(final(self).tasks@, old(self).ready@, final(self).ready@, tid),
    {
        proof {
            if old(self).ready@.contains(tid) {
                let w = choose|w: int|
                    0 <= w < old(self).ready@.len() && old(self).ready@[w] == tid;
                assert(old(self).tasks@[old(self).ready@[w] as int]->0.state == TaskState::Ready);
            }
            match old(self).running {
                Some(t) => {
                    assert(old(self).tasks@[t as int]->0.state == TaskState::Running);
                },
                None => {},
            }
        }
        match mailbox {
            Some(m) => {
                set_task_mailbox(&mut self.tasks, tid, Some(m));
            },
            None => {},
        }
        set_task_state(&mut self.tasks, tid, TaskState::Ready);
        proof {
            lemma_wf_touch_unqueued(
                old(self).tasks@,
                old(self).ready@,
                old(self).running,
                self.tasks@,
                tid,
            );
        }
        self.enqueue(tid);
    }
}

/// `post` is `pre` with one occurrence of `tid` removed if present,
/// untouched otherwise.
pub open spec fn dequeued(pre: Seq<usize>, post: Seq<usize>, tid: usize) -> bool {
    if pre.contains(tid) {
        exists|i: int|
            #![trigger pre.remove(i)]
            0 <= i < pre.len() && pre[i] == tid && post == pre.remove(i)
    } else {
        post == pre
    }
}

impl TaskTable {
    /// Explicit termination: `tid` becomes a Zombie, leaves the ready
    /// queue and the processor. Its table slot is reclaimed later, once
    /// no capability names the TCB any more; the dispatcher removes the
    /// task from any Endpoint wait queue it occupies, so no queue entry
    /// is orphaned. Fails `ProcessNotFound` when no live TCB sits at
    /// `tid`.
    #[verifier::loop_isolation(false)]
    pub fn terminate(&mut self, tid: usize) -> (r: KernelResult<()>)
        requires
            old(self).wf(),
        ensures
            final(self).wf(),
            match r {
                Ok(_) => {
                    &&& task_at(old(self).tasks@, tid)
                    &&& final(self).tasks@ == old(self).tasks@.update(
                        tid as int,
                        Some(tcb_with_state(old(self).tasks@[tid as int]->0, TaskState::Zombie)),
                    )
                    &&& dequeued(old(self).ready@, final(self).ready@, tid)
                    &&& final(self).running == (if old(self).running == Some(tid) {
                        None
                    } else {
                        old(self).running
                    })
                },
                Err(e) => {
                    &&& e.e_kind == ErrKind::ProcessNotFound
                    &&& !task_at(old(self).tasks@, tid)
                    &&& *final(self) == *old(self)
                },
            },
    {
        if tid >= self.tasks.len() || self.tasks[tid].is_none() {
            return Err(KernelError::new(ErrKind::ProcessNotFound));
        }
        // Drop the task from the ready queue if it is there.
        let mut i: usize = 0;
        let mut found: bool = false;
        let qlen = self.ready.len();
        while i < qlen
            invariant
                i <= qlen,
                !found,
                *self == *old(self),
                forall|k: int| 0 <= k < i ==> self.ready@[k] != tid,
            decreases qlen - i,
        {
            if self.ready[i] == tid {
                found = true;
                break ;
            }
            i += 1;
        }
        if found {
            self.ready.remove(i);
            proof {
                let pre = old(self).ready@;
                let cur = self.ready@;
                assert(pre.contains(tid));
                assert(cur == pre.remove(i as int));
                assert forall|a: int, b: int| 0 <= a < b < cur.len() implies cur[a] != cur[b]
                    && prio_at(self.tasks@, cur[a]) >= prio_at(self.tasks@, cur[b]) by {
                    let a0: int = if a < i { a } else { a + 1 };
                    let b0: int = if b < i { b } else { b + 1 };
                    assert(cur[a] == pre[a0]);
                    assert(cur[b] == pre[b0]);
                }
                assert forall|k: int|
                    0 <= k < cur.len() implies task_at(self.tasks@, #[trigger] cur[k])
                    && self.tasks@[cur[k] as int]->0.state == TaskState::Ready by {
                    let k0: int = if k < i { k } else { k + 1 };
                    assert(cur[k] == pre[k0]);
                }
                match self.running {
                    Some(t) => {
                        assert forall|k: int| 0 <= k < cur.len() implies cur[k] != t by {
                            let k0: int = if k < i { k } else { k + 1 };
                            assert(cur[k] == pre[k0]);
                        }
                        assert(!cur.contains(t));
                    },
                    None => {},
                }
            }
        } else {
            proof {
                if old(self).ready@.contains(tid) {
                    let w = choose|w: int|
                        0 <= w < old(self).ready@.len() && old(self).ready@[w] == tid;
                    assert(false);
                }
            }
        }
        // The queue no longer holds `tid`, so the state rewrite is safe.
        proof {
            let cur = self.ready@;
            if cur.contains(tid) {
                let w = choose|w: int| 0 <= w < cur.len() && cur[w] == tid;
                if found {
                    let pre = old(self).ready@;
                    let w0: int = if w < i { w } else { w + 1 };
                    assert(pre[w0] == tid);
                    assert(false);
                } else {
                    assert(false);
                }
            }
        }
        let was_running = match self.running {
            Some(t) => t == tid,
            None => false,
        };
        let ghost mid = *self;
        set_task_state(&mut self.tasks, tid, TaskState::Zombie);
        if was_running {
            self.running = None;
            proof {
                assert(mid.tasks@.len() == vstd::std_specs::vec::spec_vec_len(&mid.tasks));
                lemma_wf_stop_running(mid.tasks@, mid.ready@, tid, self.tasks@);
            }
        } else {
            proof {
                match mid.running {
                    Some(t) => {
                        assert(mid.tasks@[t as int]->0.state == TaskState::Running);
                    },
                    None => {},
                }
                lemma_wf_touch_unqueued(mid.tasks@, mid.ready@, mid.running, self.tasks@, tid);
            }
        }
        Ok(())
    }
}

impl TaskTable {
    /// Reclaims the table slot of a Zombie. The caller decides when no
    /// capability still references the TCB (by revoking the slots that
    /// held it); only then may the slot be reused. Fails
    /// `ProcessNotFound` for an empty slot, `InvalidOperation` for a
    /// task that has not been terminated.
    pub fn reclaim(&mut self, tid: usize) -> (r: KernelResult<()>)
        requires
            old(self).wf(),
        ensures
            final(self).wf(),
            match r {
                Ok(_) => {
                    &&& task_at(old(self).tasks@, tid)
                    &&& old(self).tasks@[tid as int]->0.state == TaskState::Zombie
                    &&& final(self).tasks@ == old(self).tasks@.update(tid as int, None)
                    &&& final(self).ready@ == old(self).ready@
                    &&& final(self).running == old(self).running
                },
                Err(e) => {
                    &&& *final(self) == *old(self)
                    &&& if !task_at(old(self).tasks@, tid) {
                        e.e_kind == ErrKind::ProcessNotFound
                    } else {
                        e.e_kind == ErrKind::InvalidOperation && old(self).tasks@[tid as int]->0.state
                            != TaskState::Zombie
                    }
                },
            },
    {
        if tid >= self.tasks.len() || self.tasks[tid].is_none() {
            return Err(KernelError::new(ErrKind::ProcessNotFound));
        }
        let is_zombie = match &self.tasks[tid] {
            Some(t) => matches!(t.state, TaskState::Zombie),
            None => false,
        };
        if !is_zombie {
            return Err(KernelError::new(ErrKind::InvalidOperation));
        }
        proof {
            if old(self).ready@.contains(tid) {
                let w = choose|w: int|
                    0 <= w < old(self).ready@.len() && old(self).ready@[w] == tid;
                assert(old(self).tasks@[old(self).ready@[w] as int]->0.state == TaskState::Ready);
            }
            match old(self).running {
                Some(t) => {
                    assert(old(self).tasks@[t as int]->0.state == TaskState::Running);
                },
                None => {},
            }
        }
        self.tasks.set(tid, None);
        proof {
            lemma_wf_touch_unqueued(
                old(self).tasks@,
                old(self).ready@,
                old(self).running,
                self.tasks@,
                tid,
            );
        }
        Ok(())
    }
}

/// Rewrites the scheduling state of task `tid` (slot must be occupied).
fn set_task_state(tasks: &mut Vec<Option<Tcb>>, tid: usize, st: TaskState)
    requires
        tid < old(tasks).len(),
        old(tasks)@[tid as int] is Some,
    ensures
        final(tasks)@ == old(tasks)@.update(
            tid as int,
            Some(tcb_with_state(old(tasks)@[tid as int]->0, st)),
        ),
{
    let t = &mut tasks[tid];
    match t {
        Some(tcb) => {
            tcb.state = st;
        },
        None => {},
    }
    proof {
        assert(final(tasks)@ =~= old(tasks)@.update(
            tid as int,
            Some(tcb_with_state(old(tasks)@[tid as int]->0, st)),
        ));
    }
}

/// Rewrites the mailbox of task `tid` (slot must be occupied).
fn set_task_mailbox(tasks: &mut Vec<Option<Tcb>>, tid: usize, m: Option<Message>)
    requires
        tid < old(tasks).len(),
        old(tasks)@[tid as int] is Some,
    ensures
        final(tasks)@ == old(tasks)@.update(
            tid as int,
            Some(tcb_with_mailbox(old(tasks)@[tid as int]->0, m)),
        ),
{
    let t = &mut tasks[tid];
    match t {
        Some(tcb) => {
            tcb.mailbox = m;
        },
        None => {},
    }
    proof {
        assert(final(tasks)@ =~= old(tasks)@.update(
            tid as int,
            Some(tcb_with_mailbox(old(tasks)@[tid as int]->0, m)),
        ));
    }
}

} // verus!
