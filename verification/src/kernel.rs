//! The invocation dispatcher and the whole-kernel state: the object
//! store/capability space, the task table and scheduler, plus per-object
//! Endpoint and AddrSpace payloads. A user trap is decoded into a
//! syscall number, a capability slot index, an invocation label and
//! argument words; the dispatcher resolves the capability in the running
//! task's CSpace root and routes to the owning component. Every failure
//! is one `KernelError`, returned — never thrown — to the caller.

use vstd::prelude::*;

use crate::capability::{CapRights, Capability, CapabilityType};
use crate::common::{ErrKind, KernelError, KernelResult, Message};
use crate::cspace::{lookup_spec, CapSpace};
use crate::endpoint::{eps_wf, in_queues, lemma_eps_preserved, Endpoint};
use crate::sched::{task_at, TaskState, TaskTable};
use crate::vspace::AddrSpace;

verus! {

/// Bound on either wait queue of every Endpoint object.
pub const EP_QUEUE_CAP: usize = 16;

/// Syscall numbers carried in the trap's first argument register.
#[derive(Debug, Clone, Copy, PartialEq, Eq, Structural)]
pub enum SysCallNo {
    /// Invoke a capability: slot index, label and argument words follow.
    Call,
    /// Give up the processor voluntarily.
    Yield,
}

/// Invocation labels: one per object variant per supported operation.
#[derive(Debug, Clone, Copy, PartialEq, Eq, Structural)]
pub enum InvLabel {
    UntypedRetype,
    CNodeCopy,
    CNodeDelete,
    CNodeRevoke,
    PageTableMap,
    PageMap,
    PageUnmap,
    EndpointSend,
    EndpointRecv,
}

/// The decoded argument words of a capability invocation. Which fields
/// an operation reads is fixed by its label; the rest are ignored.
pub struct InvokeArgs {
    /// Retype: variant of the objects to create.
    pub target: CapabilityType,
    /// Retype: size class of each new object, in bytes.
    pub obj_size: usize,
    /// Slot index of the second capability (retype destination CNode,
    /// the PageTable to install, the Page to map).
    pub extra_cap: usize,
    /// Retype: destination slot indices, one per new object.
    pub dest_slots: Vec<usize>,
    /// Copy: source slot index in the invoked CNode.
    pub src_slot: usize,
    /// Copy/delete/revoke: target slot index in the invoked CNode.
    pub dest_slot: usize,
    /// Address-space operations: the virtual address.
    pub vaddr: usize,
    /// Copy and page mapping: the rights to grant.
    pub rights: CapRights,
    /// Send: the message payload word.
    pub data: usize,
}

/// The whole kernel state, created once at boot and owned for the
/// kernel's lifetime; every component is reached through it.
pub struct Kernel {
    pub cspace: CapSpace,
    pub tasks: TaskTable,
    /// Endpoint payload of each object index (meaningful where the
    /// object is a live Endpoint; empty otherwise).
    pub endpoints: Vec<Endpoint>,
    /// Address-space payload of each object index (meaningful where the
    /// object is a PageTable used as a VSpace root).
    pub spaces: Vec<AddrSpace>,
}

/// A just-created Endpoint payload: empty queues, empty histories, the
/// standard queue bound.
pub open spec fn fresh_endpoint(ep: Endpoint) -> bool {
    &&& ep.senders@.len() == 0
    &&& ep.receivers@.len() == 0
    &&& ep.sent@.len() == 0
    &&& ep.received@.len() == 0
    &&& ep.capacity == EP_QUEUE_CAP
}

/// A just-created AddrSpace payload for object `i`: rooted at `i`, with
/// no translation installed anywhere.
pub open spec fn fresh_space(s: AddrSpace, i: int) -> bool {
    &&& s.root_obj == i
    &&& forall|a: int, b: int| crate::vspace::entry_at(s, a, b) is None
}

impl Kernel {
    /// Component invariants plus payload agreement: one Endpoint and one
    /// AddrSpace record per object, all well-formed, and no task waiting
    /// on two endpoints.
    pub open spec fn wf(self) -> bool {
        &&& self.cspace.wf()
        &&& self.tasks.wf()
        &&& self.endpoints@.len() == self.cspace.objects@.len()
        &&& self.spaces@.len() == self.cspace.objects@.len()
        &&& eps_wf(self.endpoints@, self.tasks.tasks@)
        &&& forall|i: int| 0 <= i < self.spaces@.len() ==> (#[trigger] self.spaces@[i]).wf()
    }

    /// An empty kernel with a task table of `task_capacity` slots.
    /// Initial resources come from `boot_untyped` / `boot_cnode`.
    pub fn boot(task_capacity: usize) -> (r: Kernel)
        ensures
            r.wf(),
            r.cspace.objects@.len() == 0,
            r.tasks.tasks@.len() == task_capacity,
            r.tasks.ready@.len() == 0,
            r.tasks.running is None,
    {
        Kernel {
            cspace: CapSpace::new(),
            tasks: TaskTable::new(task_capacity),
            endpoints: Vec::new(),
            spaces: Vec::new(),
        }
    }

    /// Appends fresh payload records until they cover every object.
    #[verifier::loop_isolation(false)]
    fn sync_payloads(&mut self)
        requires
            old(self).endpoints@.len() <= old(self).cspace.objects@.len(),
            old(self).spaces@.len() == old(self).endpoints@.len(),
            eps_wf(old(self).endpoints@, old(self).tasks.tasks@),
            forall|i: int| 0 <= i < old(self).spaces@.len() ==> (#[trigger] old(self).spaces@[i]).wf(),
        ensures
            final(self).cspace == old(self).cspace,
            final(self).tasks == old(self).tasks,
            final(self).endpoints@.len() == final(self).cspace.objects@.len(),
            final(self).spaces@.len() == final(self).cspace.objects@.len(),
            eps_wf(final(self).endpoints@, final(self).tasks.tasks@),
            forall|i: int| 0 <= i < final(self).spaces@.len() ==> (#[trigger] final(self).spaces@[i]).wf(),
            forall|i: int|
                0 <= i < old(self).endpoints@.len() ==> final(self).endpoints@[i] == old(
                    self,
                ).endpoints@[i],
            forall|i: int|
                0 <= i < old(self).spaces@.len() ==> final(self).spaces@[i] == old(
                    self,
                ).spaces@[i],
            forall|i: int|
                old(self).endpoints@.len() <= i < final(self).endpoints@.len()
                    ==> #[trigger] fresh_endpoint(final(self).endpoints@[i]),
            forall|i: int|
                old(self).spaces@.len() <= i < final(self).spaces@.len() ==> #[trigger] fresh_space(
                    final(self).spaces@[i],
                    i,
                ),
    {
        let n = self.cspace.objects.len();
        while self.endpoints.len() < n
            invariant
                self.cspace == old(self).cspace,
                self.tasks == old(self).tasks,
                n == self.cspace.objects@.len(),
                self.endpoints@.len() <= n,
                self.spaces@.len() == self.endpoints@.len(),
                eps_wf(self.endpoints@, self.tasks.tasks@),
                forall|i: int| 0 <= i < self.spaces@.len() ==> (#[trigger] self.spaces@[i]).wf(),
                forall|i: int|
                    0 <= i < old(self).endpoints@.len() ==> self.endpoints@[i] == old(
                        self,
                    ).endpoints@[i],
                forall|i: int|
                    0 <= i < old(self).spaces@.len() ==> self.spaces@[i] == old(self).spaces@[i],
                forall|i: int|
                    old(self).endpoints@.len() <= i < self.endpoints@.len()
                        ==> #[trigger] fresh_endpoint(self.endpoints@[i]),
                forall|i: int|
                    old(self).spaces@.len() <= i < self.spaces@.len() ==> #[trigger] fresh_space(
                        self.spaces@[i],
                        i,
                    ),
                old(self).endpoints@.len() <= self.endpoints@.len(),
            decreases n - self.endpoints@.len(),
        {
            let idx = self.endpoints.len();
            let ghost eps0 = self.endpoints@;
            let ep = Endpoint::new(EP_QUEUE_CAP);
            self.endpoints.push(ep);
            self.spaces.push(AddrSpace::new(idx));
            proof {
                assert forall|e: int| 0 <= e < self.endpoints@.len() implies (#[trigger] self
                    .endpoints@[e]).wf() && self.endpoints@[e].queues_wf(self.tasks.tasks@) by {
                    if e < eps0.len() {
                        assert(self.endpoints@[e] == eps0[e]);
                    }
                }
                assert forall|e1: int, e2: int, t: usize|
                    0 <= e1 < self.endpoints@.len() && 0 <= e2 < self.endpoints@.len() && e1 != e2
                        && #[trigger] in_queues(self.endpoints@[e1], t) && #[trigger] in_queues(
                        self.endpoints@[e2],
                        t,
                    ) implies false by {
                    if e1 < eps0.len() && e2 < eps0.len() {
                        assert(self.endpoints@[e1] == eps0[e1] && self.endpoints@[e2] == eps0[e2]);
                    } else if e1 == eps0.len() as int {
                        assert(self.endpoints@[e1].senders@.len() == 0);
                        assert(self.endpoints@[e1].receivers@.len() == 0);
                    } else {
                        assert(self.endpoints@[e2].senders@.len() == 0);
                        assert(self.endpoints@[e2].receivers@.len() == 0);
                    }
                }
            }
        }
    }

    /// Boot-time root CNode; see `CapSpace::boot_cnode`.
    pub fn boot_cnode(&mut self, slot_count: usize) -> (r: Capability)
        requires
            old(self).wf(),
            slot_count * crate::cspace::SLOT_BYTES <= usize::MAX,
        ensures
            final(self).wf(),
            final(self).tasks == old(self).tasks,
            forall|k: int|
                0 <= k < old(self).endpoints@.len() ==> final(self).endpoints@[k] == old(
                    self,
                ).endpoints@[k],
            forall|k: int|
                0 <= k < old(self).spaces@.len() ==> final(self).spaces@[k] == old(
                    self,
                ).spaces@[k],
            forall|k: int|
                old(self).endpoints@.len() <= k < final(self).endpoints@.len()
                    ==> #[trigger] fresh_endpoint(final(self).endpoints@[k]),
            forall|k: int|
                old(self).spaces@.len() <= k < final(self).spaces@.len() ==> #[trigger] fresh_space(
                    final(self).spaces@[k],
                    k,
                ),
            r.obj == old(self).cspace.objects@.len(),
            final(self).cspace.objects@.len() == old(self).cspace.objects@.len() + 1,
            final(self).cspace.objects@[r.obj as int].variant == CapabilityType::CNode,
            final(self).cspace.objects@[r.obj as int].live,
            final(self).cspace.objects@[r.obj as int].slots@.len() == slot_count,
            forall|j: int|
                0 <= j < slot_count ==> final(self).cspace.objects@[r.obj as int].slots@[j]
                    is None,
            forall|k: int|
                0 <= k < old(self).cspace.objects@.len() ==> crate::cspace::obj_like(
                    final(self).cspace.objects@[k],
                    old(self).cspace.objects@[k],
                ),
    {
        let r = self.cspace.boot_cnode(slot_count);
        self.sync_payloads();
        r
    }

    /// Boot-time root Untyped; see `CapSpace::boot_untyped`.
    pub fn boot_untyped(&mut self, size: usize, device: bool) -> (r: Capability)
        requires
            old(self).wf(),
        ensures
            final(self).wf(),
            final(self).tasks == old(self).tasks,
            forall|k: int|
                0 <= k < old(self).endpoints@.len() ==> final(self).endpoints@[k] == old(
                    self,
                ).endpoints@[k],
            forall|k: int|
                0 <= k < old(self).spaces@.len() ==> final(self).spaces@[k] == old(
                    self,
                ).spaces@[k],
            forall|k: int|
                old(self).endpoints@.len() <= k < final(self).endpoints@.len()
                    ==> #[trigger] fresh_endpoint(final(self).endpoints@[k]),
            forall|k: int|
                old(self).spaces@.len() <= k < final(self).spaces@.len() ==> #[trigger] fresh_space(
                    final(self).spaces@[k],
                    k,
                ),
            r.obj == old(self).cspace.objects@.len(),
            final(self).cspace.objects@.len() == old(self).cspace.objects@.len() + 1,
            final(self).cspace.objects@[r.obj as int].variant == CapabilityType::Untyped,
            final(self).cspace.objects@[r.obj as int].live,
            final(self).cspace.objects@[r.obj as int].size == size,
            final(self).cspace.objects@[r.obj as int].ut_used == 0,
            final(self).cspace.objects@[r.obj as int].ut_device == device,
            forall|k: int|
                0 <= k < old(self).cspace.objects@.len() ==> crate::cspace::obj_like(
                    final(self).cspace.objects@[k],
                    old(self).cspace.objects@[k],
                ),
    {
        let r = self.cspace.boot_untyped(size, device);
        self.sync_payloads();
        r
    }

    /// Retype through the dispatcher: the capability-space effect of
    /// `CapSpace::retype`, plus fresh (empty) Endpoint and AddrSpace
    /// payloads for every created object.
    pub fn retype(
        &mut self,
        untyped: &Capability,
        target: CapabilityType,
        obj_size: usize,
        dest_cnode: &Capability,
        dests: &Vec<usize>,
    ) -> (r: KernelResult<()>)
        requires
            old(self).wf(),
        ensures
            final(self).wf(),
            retype_outcome(*old(self), *final(self), *untyped, target, obj_size, *dest_cnode, dests@, r),
            forall|k: int|
                0 <= k < old(self).endpoints@.len() ==> final(self).endpoints@[k] == old(
                    self,
                ).endpoints@[k],
            forall|k: int|
                0 <= k < old(self).spaces@.len() ==> final(self).spaces@[k] == old(
                    self,
                ).spaces@[k],
            forall|k: int|
                old(self).endpoints@.len() <= k < final(self).endpoints@.len()
                    ==> #[trigger] fresh_endpoint(final(self).endpoints@[k]),
            forall|k: int|
                old(self).spaces@.len() <= k < final(self).spaces@.len() ==> #[trigger] fresh_space(
                    final(self).spaces@[k],
                    k,
                ),
    {
        let r = self.cspace.retype(untyped, target, obj_size, dest_cnode, dests);
        self.sync_payloads();
        r
    }

    /// See `CapSpace::copy`.
    pub fn copy_cap(
        &mut self,
        cnode: &Capability,
        src: usize,
        dest: usize,
        rights: CapRights,
    ) -> (r: KernelResult<()>)
        requires
            old(self).wf(),
        ensures
            final(self).wf(),
            copy_outcome(*old(self), *final(self), *cnode, src, dest, rights, r),
    {
        self.cspace.copy(cnode, src, dest, rights)
    }

    /// See `CapSpace::delete`.
    pub fn delete_cap(&mut self, cnode: &Capability, index: usize) -> (r: KernelResult<()>)
        requires
            old(self).wf(),
        ensures
            final(self).wf(),
            delete_outcome(*old(self), *final(self), *cnode, index, r),
    {
        self.cspace.delete(cnode, index)
    }

    /// See `CapSpace::revoke`.
    pub fn revoke_cap(&mut self, cnode: &Capability, index: usize) -> (r: KernelResult<()>)
        requires
            old(self).wf(),
        ensures
            final(self).wf(),
            revoke_outcome(*old(self), *final(self), *cnode, index, r),
    {
        self.cspace.revoke(cnode, index)
    }

    /// See `CapSpace::lookup`.
    pub fn lookup(&self, cnode: &Capability, index: usize) -> (r: KernelResult<Capability>)
        ensures
            crate::cspace::res_is(r, lookup_spec(self.cspace.objects@, *cnode, index as int)),
    {
        self.cspace.lookup(cnode, index)
    }
}

/// Everything `retype` promises about the state change and the result.
pub open spec fn retype_outcome(pre: Kernel, post: Kernel, untyped: Capability, target: CapabilityType, obj_size: usize, dest_cnode: Capability, dests: Seq<usize>, r: KernelResult<()>) -> bool {
    &&& (post.tasks == pre.tasks)
    &&& (match r {
                Ok(_) => {
                    &&& crate::cspace::retype_err(
                        pre.cspace.objects@,
                        untyped,
                        target,
                        obj_size as int,
                        dest_cnode,
                        dests,
                    ) is None
                    &&& crate::cspace::retype_post(
                        pre.cspace.objects@,
                        post.cspace.objects@,
                        untyped.obj as int,
                        dest_cnode.obj as int,
                        target,
                        obj_size as int,
                        dests,
                    )
                },
                Err(e) => {
                    &&& crate::cspace::retype_err(
                        pre.cspace.objects@,
                        untyped,
                        target,
                        obj_size as int,
                        dest_cnode,
                        dests,
                    ) == Some(e.e_kind)
                    &&& post.cspace.objects@ == pre.cspace.objects@
                },
            })
}

/// Everything `copy_cap` promises about the state change and the result.
pub open spec fn copy_outcome(pre: Kernel, post: Kernel, cnode: Capability, src: usize, dest: usize, rights: CapRights, r: KernelResult<()>) -> bool {
    &&& (post.tasks == pre.tasks)
    &&& (post.endpoints == pre.endpoints)
    &&& (post.spaces == pre.spaces)
    &&& (match r {
                Ok(_) => {
                    &&& crate::cspace::copy_err(
                        pre.cspace.objects@,
                        cnode,
                        src as int,
                        dest as int,
                        rights,
                    ) is None
                    &&& crate::cspace::objs_with_slot(
                        pre.cspace.objects@,
                        post.cspace.objects@,
                        cnode.obj as int,
                        dest as int,
                        Some(
                            Capability {
                                obj: lookup_spec(
                                    pre.cspace.objects@,
                                    cnode,
                                    src as int,
                                )->Ok_0.obj,
                                rights,
                                badge: lookup_spec(
                                    pre.cspace.objects@,
                                    cnode,
                                    src as int,
                                )->Ok_0.badge,
                            },
                        ),
                    )
                },
                Err(e) => {
                    &&& crate::cspace::copy_err(
                        pre.cspace.objects@,
                        cnode,
                        src as int,
                        dest as int,
                        rights,
                    ) == Some(e.e_kind)
                    &&& post.cspace.objects@ == pre.cspace.objects@
                },
            })
}

/// Everything `delete_cap` promises about the state change and the result.
pub open spec fn delete_outcome(pre: Kernel, post: Kernel, cnode: Capability, index: usize, r: KernelResult<()>) -> bool {
    &&& (post.tasks == pre.tasks)
    &&& (post.endpoints == pre.endpoints)
    &&& (post.spaces == pre.spaces)
    &&& (post.cspace.objects@.len() == pre.cspace.objects@.len())
    &&& (match r {
                Ok(_) => {
                    &&& lookup_spec(pre.cspace.objects@, cnode, index as int) is Ok
                    &&& {
                        let c = lookup_spec(pre.cspace.objects@, cnode, index as int)->Ok_0;
                        if pre.cspace.objects@[c.obj as int].variant
                            == CapabilityType::Untyped {
                            crate::cspace::delete_swept_post(
                                pre.cspace.objects@,
                                post.cspace.objects@,
                                c.obj as int,
                                cnode.obj as int,
                                index as int,
                            )
                        } else {
                            crate::cspace::objs_with_slot(
                                pre.cspace.objects@,
                                post.cspace.objects@,
                                cnode.obj as int,
                                index as int,
                                None,
                            )
                        }
                    }
                },
                Err(e) => {
                    &&& lookup_spec(pre.cspace.objects@, cnode, index as int) == Err::<
                        Capability,
                        ErrKind,
                    >(e.e_kind)
                    &&& post.cspace.objects@ == pre.cspace.objects@
                },
            })
}

/// Everything `revoke_cap` promises about the state change and the result.
pub open spec fn revoke_outcome(pre: Kernel, post: Kernel, cnode: Capability, index: usize, r: KernelResult<()>) -> bool {
    &&& (post.tasks == pre.tasks)
    &&& (post.endpoints == pre.endpoints)
    &&& (post.spaces == pre.spaces)
    &&& (post.cspace.objects@.len() == pre.cspace.objects@.len())
    &&& (match r {
                Ok(_) => {
                    &&& lookup_spec(pre.cspace.objects@, cnode, index as int) is Ok
                    &&& {
                        let c = lookup_spec(pre.cspace.objects@, cnode, index as int)->Ok_0;
                        if pre.cspace.objects@[c.obj as int].variant
                            == CapabilityType::Untyped {
                            crate::cspace::sweep_post(
                                pre.cspace.objects@,
                                post.cspace.objects@,
                                c.obj as int,
                            )
                        } else {
                            post.cspace.objects@ == pre.cspace.objects@
                        }
                    }
                },
                Err(e) => {
                    &&& lookup_spec(pre.cspace.objects@, cnode, index as int) == Err::<
                        Capability,
                        ErrKind,
                    >(e.e_kind)
                    &&& post.cspace.objects@ == pre.cspace.objects@
                },
            })
}

/// Everything `map_page` promises about the state change and the result.
pub open spec fn map_page_outcome(pre: Kernel, post: Kernel, vspace: Capability, page: Capability, vaddr: usize, rights: CapRights, r: KernelResult<()>) -> bool {
    &&& (post.cspace == pre.cspace)
    &&& (post.tasks == pre.tasks)
    &&& (post.endpoints == pre.endpoints)
    &&& (post.spaces@.len() == pre.spaces@.len())
    &&& (forall|k: int|
                0 <= k < pre.spaces@.len() && k != vspace.obj ==> post.spaces@[k]
                    == pre.spaces@[k])
    &&& (match r {
                Ok(_) => {
                    &&& resolve_err(pre.cspace.objects@, vspace, CapabilityType::PageTable)
                        is None
                    &&& resolve_err(pre.cspace.objects@, page, CapabilityType::Page) is None
                    &&& rights.subset_of(page.rights)
                    &&& crate::vspace::map_page_err(
                        pre.spaces@[vspace.obj as int],
                        page.obj,
                        vaddr,
                    ) is None
                    &&& crate::vspace::entry_set_post(
                        pre.spaces@[vspace.obj as int],
                        post.spaces@[vspace.obj as int],
                        vaddr,
                        Some(crate::vspace::PageMapping { page: page.obj, rights }),
                    )
                },
                Err(e) => {
                    &&& post.spaces@ == pre.spaces@
                    &&& Some(e.e_kind) == (if resolve_err(
                        pre.cspace.objects@,
                        vspace,
                        CapabilityType::PageTable,
                    ) is Some {
                        resolve_err(pre.cspace.objects@, vspace, CapabilityType::PageTable)
                    } else if resolve_err(pre.cspace.objects@, page, CapabilityType::Page)
                        is Some {
                        resolve_err(pre.cspace.objects@, page, CapabilityType::Page)
                    } else if !rights.subset_of(page.rights) {
                        Some(ErrKind::InvalidOperation)
                    } else {
                        crate::vspace::map_page_err(
                            pre.spaces@[vspace.obj as int],
                            page.obj,
                            vaddr,
                        )
                    })
                },
            })
}

/// Everything `map_table` promises about the state change and the result.
pub open spec fn map_table_outcome(pre: Kernel, post: Kernel, vspace: Capability, table: Capability, vaddr: usize, r: KernelResult<()>) -> bool {
    &&& (post.cspace == pre.cspace)
    &&& (post.tasks == pre.tasks)
    &&& (post.endpoints == pre.endpoints)
    &&& (post.spaces@.len() == pre.spaces@.len())
    &&& (forall|k: int|
                0 <= k < pre.spaces@.len() && k != vspace.obj ==> post.spaces@[k]
                    == pre.spaces@[k])
    &&& (match r {
                Ok(_) => {
                    &&& resolve_err(pre.cspace.objects@, vspace, CapabilityType::PageTable)
                        is None
                    &&& resolve_err(pre.cspace.objects@, table, CapabilityType::PageTable)
                        is None
                    &&& crate::vspace::map_table_err(
                        pre.spaces@[vspace.obj as int],
                        table.obj,
                        vaddr,
                    ) is None
                    &&& crate::vspace::map_table_post(
                        pre.spaces@[vspace.obj as int],
                        post.spaces@[vspace.obj as int],
                        table.obj,
                        vaddr,
                    )
                },
                Err(e) => {
                    &&& post.spaces@ == pre.spaces@
                    &&& Some(e.e_kind) == (if resolve_err(
                        pre.cspace.objects@,
                        vspace,
                        CapabilityType::PageTable,
                    ) is Some {
                        resolve_err(pre.cspace.objects@, vspace, CapabilityType::PageTable)
                    } else if resolve_err(
                        pre.cspace.objects@,
                        table,
                        CapabilityType::PageTable,
                    ) is Some {
                        resolve_err(pre.cspace.objects@, table, CapabilityType::PageTable)
                    } else {
                        crate::vspace::map_table_err(
                            pre.spaces@[vspace.obj as int],
                            table.obj,
                            vaddr,
                        )
                    })
                },
            })
}

/// Everything `unmap` promises about the state change and the result.
pub open spec fn unmap_outcome(pre: Kernel, post: Kernel, vspace: Capability, vaddr: usize, r: KernelResult<()>) -> bool {
    &&& (post.cspace == pre.cspace)
    &&& (post.tasks == pre.tasks)
    &&& (post.endpoints == pre.endpoints)
    &&& (post.spaces@.len() == pre.spaces@.len())
    &&& (forall|k: int|
                0 <= k < pre.spaces@.len() && k != vspace.obj ==> post.spaces@[k]
                    == pre.spaces@[k])
    &&& (match r {
                Ok(_) => {
                    &&& resolve_err(pre.cspace.objects@, vspace, CapabilityType::PageTable)
                        is None
                    &&& crate::vspace::unmap_err(pre.spaces@[vspace.obj as int], vaddr)
                        is None
                    &&& crate::vspace::entry_set_post(
                        pre.spaces@[vspace.obj as int],
                        post.spaces@[vspace.obj as int],
                        vaddr,
                        None,
                    )
                },
                Err(e) => {
                    &&& post.spaces@ == pre.spaces@
                    &&& Some(e.e_kind) == (if resolve_err(
                        pre.cspace.objects@,
                        vspace,
                        CapabilityType::PageTable,
                    ) is Some {
                        resolve_err(pre.cspace.objects@, vspace, CapabilityType::PageTable)
                    } else {
                        crate::vspace::unmap_err(pre.spaces@[vspace.obj as int], vaddr)
                    })
                },
            })
}

/// How the dispatcher resolves a capability that must name a live object
/// of `want`: a stale reference is `UnknownCapType`, a live object of
/// another variant `UnexpectedCapType`.
pub open spec fn resolve_err(
    objs: Seq<crate::cspace::Object>,
    c: Capability,
    want: CapabilityType,
) -> Option<ErrKind> {
    if !crate::cspace::cap_ok(objs, c) {
        Some(ErrKind::UnknownCapType)
    } else if objs[c.obj as int].variant != want {
        Some(ErrKind::UnexpectedCapType)
    } else {
        None
    }
}

impl Kernel {
    /// Checks that `c` names a live object of variant `want`.
    fn resolve(&self, c: &Capability, want: CapabilityType) -> (r: KernelResult<()>)
        ensures
            match r {
                Ok(_) => resolve_err(self.cspace.objects@, *c, want) is None,
                Err(e) => resolve_err(self.cspace.objects@, *c, want) == Some(e.e_kind),
            },
    {
        if c.obj >= self.cspace.objects.len() || !self.cspace.objects[c.obj].live {
            return Err(KernelError::new(ErrKind::UnknownCapType));
        }
        let v = self.cspace.objects[c.obj].variant;
        let ok = match want {
            CapabilityType::Untyped => matches!(v, CapabilityType::Untyped),
            CapabilityType::TaskControlBlock => matches!(v, CapabilityType::TaskControlBlock),
            CapabilityType::Endpoint => matches!(v, CapabilityType::Endpoint),
            CapabilityType::CNode => matches!(v, CapabilityType::CNode),
            CapabilityType::PageTable => matches!(v, CapabilityType::PageTable),
            CapabilityType::Page => matches!(v, CapabilityType::Page),
        };
        if !ok {
            return Err(KernelError::new(ErrKind::UnexpectedCapType));
        }
        Ok(())
    }

    /// `map(vspace, page, vaddr, rights)`: authorizes through the two
    /// capabilities — the VSpace root must be a live PageTable, the page
    /// a live Page whose rights cover `rights` — then maps in that
    /// address space; see `AddrSpace::map_page` for the walk errors.
    pub fn map_page(
        &mut self,
        vspace: &Capability,
        page: &Capability,
        vaddr: usize,
        rights: CapRights,
    ) -> (r: KernelResult<()>)
        requires
            old(self).wf(),
        ensures
            final(self).wf(),
            map_page_outcome(*old(self), *final(self), *vspace, *page, vaddr, rights, r),
    {
        if let Err(e) = self.resolve(vspace, CapabilityType::PageTable) {
            return Err(e);
        }
        if let Err(e) = self.resolve(page, CapabilityType::Page) {
            return Err(e);
        }
        if !rights.is_subset_of(&page.rights) {
            return Err(KernelError::new(ErrKind::InvalidOperation));
        }
        let s = &mut self.spaces[vspace.obj];
        let r = s.map_page(page.obj, vaddr, rights);
        proof {
            match r {
                Ok(_) => {},
                Err(_) => {
                    assert(self.spaces@ =~= old(self).spaces@);
                },
            }
        }
        r
    }

    /// `map_table(vspace, table, vaddr)`: installs the PageTable object
    /// behind `table` as the intermediate table covering `vaddr` in the
    /// address space behind `vspace`; see `AddrSpace::map_table`.
    pub fn map_table(&mut self, vspace: &Capability, table: &Capability, vaddr: usize) -> (r:
        KernelResult<()>)
        requires
            old(self).wf(),
        ensures
            final(self).wf(),
            map_table_outcome(*old(self), *final(self), *vspace, *table, vaddr, r),
    {
        if let Err(e) = self.resolve(vspace, CapabilityType::PageTable) {
            return Err(e);
        }
        if let Err(e) = self.resolve(table, CapabilityType::PageTable) {
            return Err(e);
        }
        let s = &mut self.spaces[vspace.obj];
        let r = s.map_table(table.obj, vaddr);
        proof {
            match r {
                Ok(_) => {},
                Err(_) => {
                    assert(self.spaces@ =~= old(self).spaces@);
                },
            }
        }
        r
    }

    /// `unmap(vspace, vaddr)`; see `AddrSpace::unmap`.
    pub fn unmap(&mut self, vspace: &Capability, vaddr: usize) -> (r: KernelResult<()>)
        requires
            old(self).wf(),
        ensures
            final(self).wf(),
            unmap_outcome(*old(self), *final(self), *vspace, vaddr, r),
    {
        if let Err(e) = self.resolve(vspace, CapabilityType::PageTable) {
            return Err(e);
        }
        let s = &mut self.spaces[vspace.obj];
        let r = s.unmap(vaddr);
        proof {
            match r {
                Ok(_) => {},
                Err(_) => {
                    assert(self.spaces@ =~= old(self).spaces@);
                },
            }
        }
        r
    }
}

/// How the dispatcher admits an Endpoint invocation: the capability must
/// name a live Endpoint and carry the right for the direction — write to
/// send, read to receive.
pub open spec fn ep_access_err(
    objs: Seq<crate::cspace::Object>,
    c: Capability,
    need_write: bool,
) -> Option<ErrKind> {
    if resolve_err(objs, c, CapabilityType::Endpoint) is Some {
        resolve_err(objs, c, CapabilityType::Endpoint)
    } else if need_write && !c.rights.write {
        Some(ErrKind::InvalidOperation)
    } else if !need_write && !c.rights.read {
        Some(ErrKind::InvalidOperation)
    } else {
        None
    }
}

/// Everything `endpoint_send` promises about the state change and the
/// result, for every input.
pub open spec fn send_outcome(pre: Kernel, post: Kernel, ep: Capability, data: usize, r: KernelResult<()>) -> bool {
    &&& (post.cspace == pre.cspace)
    &&& (post.spaces == pre.spaces)
    &&& (post.endpoints@.len() == pre.endpoints@.len())
    &&& (forall|k: int|
                0 <= k < pre.endpoints@.len() && k != ep.obj ==> post.endpoints@[k]
                    == pre.endpoints@[k])
    &&& (match r {
                Err(e) => {
                    if ep_access_err(pre.cspace.objects@, ep, true) is Some {
                        &&& ep_access_err(pre.cspace.objects@, ep, true) == Some(e.e_kind)
                        &&& post.endpoints == pre.endpoints
                        &&& post.tasks == pre.tasks
                    } else {
                        &&& e.e_kind == ErrKind::MessageBoxIsFull
                        &&& pre.endpoints@[ep.obj as int].receivers@.len() == 0
                        &&& pre.endpoints@[ep.obj as int].senders@.len() == pre.endpoints@[ep.obj as int].capacity
                        &&& post.endpoints@ == pre.endpoints@
                        &&& post.tasks == pre.tasks
                    }
                },
                Ok(_) => {
                    let pre_ep = pre.endpoints@[ep.obj as int];
                    let post_ep = post.endpoints@[ep.obj as int];
                    let msg = Message { data, badge: ep.badge };
                    &&& ep_access_err(pre.cspace.objects@, ep, true) is None
                    &&& if pre_ep.receivers@.len() > 0 {
                        let rcv = pre_ep.receivers@[0];
                        &&& post_ep.receivers@ == pre_ep.receivers@.subrange(
                            1,
                            pre_ep.receivers@.len() as int,
                        )
                        &&& post_ep.senders@ == pre_ep.senders@
                        &&& post_ep.sent@ == pre_ep.sent@.push(msg)
                        &&& post_ep.received@ == pre_ep.received@.push(msg)
                        &&& post.tasks.tasks@ == pre.tasks.tasks@.update(
                            rcv as int,
                            Some(
                                crate::sched::tcb_with_mailbox(
                                    crate::sched::tcb_with_state(
                                        pre.tasks.tasks@[rcv as int]->0,
                                        TaskState::Ready,
                                    ),
                                    Some(msg),
                                ),
                            ),
                        )
                        &&& post.tasks.running == pre.tasks.running
                    } else {
                        &&& post_ep.senders@ == pre_ep.senders@.push(
                            crate::endpoint::Waiter { task: pre.tasks.running->0, msg },
                        )
                        &&& post_ep.receivers@ == pre_ep.receivers@
                        &&& post_ep.sent@ == pre_ep.sent@.push(msg)
                        &&& post_ep.received@ == pre_ep.received@
                        &&& post.tasks.tasks@ == pre.tasks.tasks@.update(
                            pre.tasks.running->0 as int,
                            Some(
                                crate::sched::tcb_with_state(
                                    pre.tasks.tasks@[pre.tasks.running->0 as int]->0,
                                    TaskState::Blocked,
                                ),
                            ),
                        )
                        &&& post.tasks.running is None
                    }
                },
            })
}

/// Everything `endpoint_recv` promises about the state change and the
/// result, for every input.
pub open spec fn recv_outcome(pre: Kernel, post: Kernel, ep: Capability, r: KernelResult<Option<Message>>) -> bool {
    &&& (post.cspace == pre.cspace)
    &&& (post.spaces == pre.spaces)
    &&& (post.endpoints@.len() == pre.endpoints@.len())
    &&& (forall|k: int|
                0 <= k < pre.endpoints@.len() && k != ep.obj ==> post.endpoints@[k]
                    == pre.endpoints@[k])
    &&& (match r {
                Err(e) => {
                    if ep_access_err(pre.cspace.objects@, ep, false) is Some {
                        &&& ep_access_err(pre.cspace.objects@, ep, false) == Some(e.e_kind)
                        &&& post.endpoints == pre.endpoints
                        &&& post.tasks == pre.tasks
                    } else {
                        &&& e.e_kind == ErrKind::MessageBoxIsFull
                        &&& pre.endpoints@[ep.obj as int].senders@.len() == 0
                        &&& pre.endpoints@[ep.obj as int].receivers@.len() == pre.endpoints@[ep.obj as int].capacity
                        &&& post.endpoints@ == pre.endpoints@
                        &&& post.tasks == pre.tasks
                    }
                },
                Ok(got) => {
                    let pre_ep = pre.endpoints@[ep.obj as int];
                    let post_ep = post.endpoints@[ep.obj as int];
                    &&& ep_access_err(pre.cspace.objects@, ep, false) is None
                    &&& if pre_ep.senders@.len() > 0 {
                        let w = pre_ep.senders@[0];
                        &&& got == Some(w.msg)
                        &&& post_ep.senders@ == pre_ep.senders@.subrange(
                            1,
                            pre_ep.senders@.len() as int,
                        )
                        &&& post_ep.receivers@ == pre_ep.receivers@
                        &&& post_ep.sent@ == pre_ep.sent@
                        &&& post_ep.received@ == pre_ep.received@.push(w.msg)
                        &&& post.tasks.tasks@ == pre.tasks.tasks@.update(
                            w.task as int,
                            Some(
                                crate::sched::tcb_with_state(
                                    pre.tasks.tasks@[w.task as int]->0,
                                    TaskState::Ready,
                                ),
                            ),
                        )
                        &&& post.tasks.running == pre.tasks.running
                    } else {
                        &&& got is None
                        &&& post_ep.receivers@ == pre_ep.receivers@.push(
                            pre.tasks.running->0,
                        )
                        &&& post_ep.senders@ == pre_ep.senders@
                        &&& post_ep.sent@ == pre_ep.sent@
                        &&& post_ep.received@ == pre_ep.received@
                        &&& post.tasks.tasks@ == pre.tasks.tasks@.update(
                            pre.tasks.running->0 as int,
                            Some(
                                crate::sched::tcb_with_state(
                                    pre.tasks.tasks@[pre.tasks.running->0 as int]->0,
                                    TaskState::Blocked,
                                ),
                            ),
                        )
                        &&& post.tasks.running is None
                    }
                },
            })
}

impl Kernel {
    /// `send(endpoint, data)` by the running task; the capability's badge
    /// travels with the message unmodified. See `Endpoint::send` for the
    /// rendezvous semantics this forwards to.
    pub fn endpoint_send(&mut self, ep: &Capability, data: usize) -> (r: KernelResult<()>)
        requires
            old(self).wf(),
            old(self).tasks.running is Some,
        ensures
            final(self).wf(),
            send_outcome(*old(self), *final(self), *ep, data, r),
    {
        if let Err(e) = self.resolve(ep, CapabilityType::Endpoint) {
            return Err(e);
        }
        if !ep.rights.write {
            return Err(KernelError::new(ErrKind::InvalidOperation));
        }
        let e_i = ep.obj;
        let msg = Message { data, badge: ep.badge };
        let ghost eps0 = self.endpoints@;
        let ghost tt0 = self.tasks;
        proof {
            assert(eps0[e_i as int].wf() && eps0[e_i as int].queues_wf(tt0.tasks@));
        }
        let epr = &mut self.endpoints[e_i];
        let r = epr.send(&mut self.tasks, msg);
        proof {
            let epsn = self.endpoints@;
            let ttn = self.tasks;
            if eps0[e_i as int].receivers@.len() > 0 {
                let changed = eps0[e_i as int].receivers@[0];
                assert(in_queues(eps0[e_i as int], changed));
                assert forall|k: int|
                    0 <= k < eps0.len() && k != e_i implies !in_queues(
                    #[trigger] eps0[k],
                    changed,
                ) by {
                    if in_queues(eps0[k], changed) {
                        assert(in_queues(eps0[e_i as int], changed));
                        assert(false);
                    }
                }
                lemma_source_recv_pop(eps0[e_i as int], epsn[e_i as int]);
                lemma_eps_preserved(eps0, epsn, tt0.tasks@, ttn.tasks@, e_i as int, changed);
            } else if eps0[e_i as int].senders@.len() == eps0[e_i as int].capacity {
                assert(epsn =~= eps0);
            } else {
                let changed = tt0.running->0;
                assert(tt0.tasks@[changed as int]->0.state == TaskState::Running);
                assert forall|k: int|
                    0 <= k < eps0.len() && k != e_i implies !in_queues(
                    #[trigger] eps0[k],
                    changed,
                ) by {
                    lemma_queued_is_blocked(eps0[k], tt0.tasks@, changed);
                }
                lemma_source_send_push(
                    eps0[e_i as int],
                    epsn[e_i as int],
                    crate::endpoint::Waiter { task: changed, msg },
                );
                lemma_eps_preserved(eps0, epsn, tt0.tasks@, ttn.tasks@, e_i as int, changed);
            }
        }
        r
    }

    /// `receive(endpoint)` by the running task; see `Endpoint::receive`.
    pub fn endpoint_recv(&mut self, ep: &Capability) -> (r: KernelResult<Option<Message>>)
        requires
            old(self).wf(),
            old(self).tasks.running is Some,
        ensures
            final(self).wf(),
            recv_outcome(*old(self), *final(self), *ep, r),
    {
        if let Err(e) = self.resolve(ep, CapabilityType::Endpoint) {
            return Err(e);
        }
        if !ep.rights.read {
            return Err(KernelError::new(ErrKind::InvalidOperation));
        }
        let e_i = ep.obj;
        let ghost eps0 = self.endpoints@;
        let ghost tt0 = self.tasks;
        proof {
            assert(eps0[e_i as int].wf() && eps0[e_i as int].queues_wf(tt0.tasks@));
        }
        let epr = &mut self.endpoints[e_i];
        let r = epr.receive(&mut self.tasks);
        proof {
            let epsn = self.endpoints@;
            let ttn = self.tasks;
            if eps0[e_i as int].senders@.len() > 0 {
                let changed = eps0[e_i as int].senders@[0].task;
                assert(in_queues(eps0[e_i as int], changed));
                assert forall|k: int|
                    0 <= k < eps0.len() && k != e_i implies !in_queues(
                    #[trigger] eps0[k],
                    changed,
                ) by {
                    if in_queues(eps0[k], changed) {
                        assert(in_queues(eps0[e_i as int], changed));
                        assert(false);
                    }
                }
                lemma_source_send_pop(eps0[e_i as int], epsn[e_i as int]);
                lemma_eps_preserved(eps0, epsn, tt0.tasks@, ttn.tasks@, e_i as int, changed);
            } else if eps0[e_i as int].receivers@.len() == eps0[e_i as int].capacity {
                assert(epsn =~= eps0);
            } else {
                let changed = tt0.running->0;
                assert(tt0.tasks@[changed as int]->0.state == TaskState::Running);
                assert forall|k: int|
                    0 <= k < eps0.len() && k != e_i implies !in_queues(
                    #[trigger] eps0[k],
                    changed,
                ) by {
                    lemma_queued_is_blocked(eps0[k], tt0.tasks@, changed);
                }
                lemma_source_recv_push(eps0[e_i as int], epsn[e_i as int], changed);
                lemma_eps_preserved(eps0, epsn, tt0.tasks@, ttn.tasks@, e_i as int, changed);
            }
        }
        r
    }
}

/// A queue member of a well-formed endpoint is Blocked, so a task in any
/// other state waits nowhere.
proof fn lemma_queued_is_blocked(
    ep: Endpoint,
    tasks: Seq<Option<crate::sched::Tcb>>,
    t: usize,
)
    requires
        ep.queues_wf(tasks),
        task_at(tasks, t) ==> tasks[t as int]->0.state != TaskState::Blocked,
    ensures
        !in_queues(ep, t),
{
    if exists|i: int| 0 <= i < ep.senders@.len() && (#[trigger] ep.senders@[i]).task == t {
        let i = choose|i: int| 0 <= i < ep.senders@.len() && (#[trigger] ep.senders@[i]).task == t;
        assert(tasks[ep.senders@[i].task as int]->0.state == TaskState::Blocked);
    }
    if exists|i: int| 0 <= i < ep.receivers@.len() && #[trigger] ep.receivers@[i] == t {
        let i = choose|i: int| 0 <= i < ep.receivers@.len() && #[trigger] ep.receivers@[i] == t;
        assert(tasks[ep.receivers@[i] as int]->0.state == TaskState::Blocked);
    }
}

/// Everything a successful `terminate_task(tid)` does to the task
/// table and the endpoints: `tid` becomes a Zombie off the queue and
/// the processor, is cancelled out of every wait queue, and histories
/// and queue bounds stay untouched.
pub open spec fn terminated_post(pre: Kernel, post: Kernel, tid: usize) -> bool {
            &&& task_at(pre.tasks.tasks@, tid)
            &&& post.tasks.tasks@ == pre.tasks.tasks@.update(
                tid as int,
                Some(
                    crate::sched::tcb_with_state(
                        pre.tasks.tasks@[tid as int]->0,
                        TaskState::Zombie,
                    ),
                ),
            )
            &&& crate::sched::dequeued(
                pre.tasks.ready@,
                post.tasks.ready@,
                tid,
            )
            &&& post.tasks.running == (if pre.tasks.running == Some(tid) {
                None
            } else {
                pre.tasks.running
            })
            &&& forall|e: int|
                0 <= e < post.endpoints@.len() ==> !in_queues(
                    #[trigger] post.endpoints@[e],
                    tid,
                )
            &&& forall|e: int|
                0 <= e < post.endpoints@.len() ==> crate::endpoint::waiters_cancelled(
                    (#[trigger] pre.endpoints@[e]).senders@,
                    post.endpoints@[e].senders@,
                    tid,
                ) && crate::sched::dequeued(
                    pre.endpoints@[e].receivers@,
                    post.endpoints@[e].receivers@,
                    tid,
                )
            &&& forall|e: int|
                0 <= e < post.endpoints@.len()
                    ==> (#[trigger] post.endpoints@[e]).received@
                    == pre.endpoints@[e].received@
                    && post.endpoints@[e].capacity
                    == pre.endpoints@[e].capacity
}

/// The capability-space effect of `destroy_task`: for each root
/// capability the task holds, the named slot of `cn` is cleared;
/// everything else stays exactly as it was.
pub open spec fn roots_removed(
    pre: Seq<crate::cspace::Object>,
    post: Seq<crate::cspace::Object>,
    tcb: crate::sched::Tcb,
    cn: int,
    cs_slot: int,
    vs_slot: int,
) -> bool {
    &&& post.len() == pre.len()
    &&& forall|k: int| 0 <= k < pre.len() && k != cn ==> crate::cspace::obj_like(post[k], pre[k])
    &&& post[cn].variant == pre[cn].variant
    &&& post[cn].size == pre[cn].size
    &&& post[cn].parent == pre[cn].parent
    &&& post[cn].live == pre[cn].live
    &&& post[cn].ut_used == pre[cn].ut_used
    &&& post[cn].ut_device == pre[cn].ut_device
    &&& post[cn].slots@.len() == pre[cn].slots@.len()
    &&& forall|j: int|
        0 <= j < pre[cn].slots@.len() ==> post[cn].slots@[j] == (if (tcb.cspace_root is Some && j
            == cs_slot) || (tcb.vspace_root is Some && j == vs_slot) {
            None
        } else {
            pre[cn].slots@[j]
        })
}

/// One root's slot check for `destroy_task`: the slot must resolve, hold
/// exactly the recorded capability, and that capability must name an
/// object of the variant a root of this kind has.
pub open spec fn root_check(
    k: Kernel,
    root: Option<Capability>,
    root_cnode: Capability,
    slot: usize,
    want: CapabilityType,
) -> Option<ErrKind> {
    match root {
        Some(c) => match lookup_spec(k.cspace.objects@, root_cnode, slot as int) {
            Err(e) => Some(e),
            Ok(got) => if got != c {
                Some(ErrKind::InvalidOperation)
            } else if k.cspace.objects@[c.obj as int].variant != want {
                Some(ErrKind::UnexpectedCapType)
            } else {
                None
            },
        },
        None => None,
    }
}

/// The exact error `destroy_task` reports, or `None` when it must
/// succeed: the task must exist; two held roots need two distinct slots;
/// and each held root must pass `root_check` — the CSpace root as a
/// CNode, the VSpace root as a PageTable.
pub open spec fn destroy_err(
    k: Kernel,
    tid: usize,
    root_cnode: Capability,
    cs_slot: usize,
    vs_slot: usize,
) -> Option<ErrKind> {
    if !task_at(k.tasks.tasks@, tid) {
        Some(ErrKind::ProcessNotFound)
    } else {
        let tcb = k.tasks.tasks@[tid as int]->0;
        if tcb.cspace_root is Some && tcb.vspace_root is Some && cs_slot == vs_slot {
            Some(ErrKind::InvalidOperation)
        } else {
            match root_check(k, tcb.cspace_root, root_cnode, cs_slot, CapabilityType::CNode) {
                Some(e) => Some(e),
                None => root_check(
                    k,
                    tcb.vspace_root,
                    root_cnode,
                    vs_slot,
                    CapabilityType::PageTable,
                ),
            }
        }
    }
}

impl Kernel {
    /// Task destruction, composed as the lifecycle asks: the task is
    /// terminated — cancelled out of every Endpoint wait queue, made a
    /// Zombie, off the queue and the processor — and its CSpace-root and
    /// VSpace-root capabilities, whose slot addresses the caller
    /// supplies, are removed from the capability space. Only then can
    /// the TCB itself be deleted and the table slot reused (`delete` on
    /// the slot holding the TCB capability, then `reclaim_task`). In
    /// this derivation model copies are siblings and only Untypeds have
    /// descendants, so a CNode or PageTable root has no subtree to
    /// sweep: deleting the root capability itself is what ends the dead
    /// task's authority; the backing objects are reclaimed through their
    /// parent Untyped.
    pub fn destroy_task(
        &mut self,
        tid: usize,
        root_cnode: &Capability,
        cs_slot: usize,
        vs_slot: usize,
    ) -> (r: KernelResult<()>)
        requires
            old(self).wf(),
        ensures
            final(self).wf(),
            final(self).spaces == old(self).spaces,
            final(self).endpoints@.len() == old(self).endpoints@.len(),
            match r {
                Ok(_) => {
                    &&& destroy_err(*old(self), tid, *root_cnode, cs_slot, vs_slot) is None
                    &&& terminated_post(*old(self), *final(self), tid)
                    &&& roots_removed(
                        old(self).cspace.objects@,
                        final(self).cspace.objects@,
                        old(self).tasks.tasks@[tid as int]->0,
                        root_cnode.obj as int,
                        cs_slot as int,
                        vs_slot as int,
                    )
                },
                Err(e) => {
                    &&& destroy_err(*old(self), tid, *root_cnode, cs_slot, vs_slot) == Some(
                        e.e_kind,
                    )
                    &&& final(self).cspace.objects@ == old(self).cspace.objects@
                    &&& final(self).tasks == old(self).tasks
                    &&& final(self).endpoints == old(self).endpoints
                },
            },
    {
        if tid >= self.tasks.tasks.len() || self.tasks.tasks[tid].is_none() {
            return Err(KernelError::new(ErrKind::ProcessNotFound));
        }
        let (cs_root, vs_root) = match &self.tasks.tasks[tid] {
            Some(t) => (t.cspace_root, t.vspace_root),
            None => (None, None),
        };
        if cs_root.is_some() && vs_root.is_some() && cs_slot == vs_slot {
            return Err(KernelError::new(ErrKind::InvalidOperation));
        }
        match cs_root {
            Some(c) => {
                let got = match self.cspace.lookup(root_cnode, cs_slot) {
                    Ok(g) => g,
                    Err(e) => {
                        return Err(e);
                    },
                };
                if !(got == c) {
                    return Err(KernelError::new(ErrKind::InvalidOperation));
                }
                proof {
                    assert(crate::cspace::obj_wf(self.cspace.objects@, root_cnode.obj as int));
                    assert(self.cspace.objects@[root_cnode.obj as int].slots@[cs_slot as int]
                        == Some(got));
                    assert(crate::cspace::cap_ok(self.cspace.objects@, got));
                }
                if !matches!(self.cspace.objects[c.obj].variant, CapabilityType::CNode) {
                    return Err(KernelError::new(ErrKind::UnexpectedCapType));
                }
            },
            None => {},
        }
        match vs_root {
            Some(c) => {
                let got = match self.cspace.lookup(root_cnode, vs_slot) {
                    Ok(g) => g,
                    Err(e) => {
                        return Err(e);
                    },
                };
                if !(got == c) {
                    return Err(KernelError::new(ErrKind::InvalidOperation));
                }
                proof {
                    assert(crate::cspace::obj_wf(self.cspace.objects@, root_cnode.obj as int));
                    assert(self.cspace.objects@[root_cnode.obj as int].slots@[vs_slot as int]
                        == Some(got));
                    assert(crate::cspace::cap_ok(self.cspace.objects@, got));
                }
                if !matches!(self.cspace.objects[c.obj].variant, CapabilityType::PageTable) {
                    return Err(KernelError::new(ErrKind::UnexpectedCapType));
                }
            },
            None => {},
        }
        // All checks passed: retire the task, then take its roots away.
        match self.terminate_task(tid) {
            Ok(_) => {},
            Err(e) => {
                return Err(e);
            },
        }
        let ghost m1 = self.cspace.objects@;
        match cs_root {
            Some(_) => {
                match self.cspace.delete(root_cnode, cs_slot) {
                    Ok(_) => {},
                    Err(e) => {
                        return Err(e);
                    },
                }
            },
            None => {},
        }
        let ghost m2 = self.cspace.objects@;
        match vs_root {
            Some(_) => {
                match self.cspace.delete(root_cnode, vs_slot) {
                    Ok(_) => {},
                    Err(e) => {
                        return Err(e);
                    },
                }
            },
            None => {},
        }
        proof {
            let pre = old(self).cspace.objects@;
            let fin = self.cspace.objects@;
            let cn = root_cnode.obj as int;
            let tcb = old(self).tasks.tasks@[tid as int]->0;
            assert(m1 == pre);
            assert forall|k: int|
                0 <= k < pre.len() && k != cn implies crate::cspace::obj_like(
                fin[k],
                pre[k],
            ) by {
                if cs_root is Some {
                    assert(crate::cspace::obj_like(m2[k], m1[k]));
                }
                if vs_root is Some {
                    assert(crate::cspace::obj_like(fin[k], m2[k]));
                }
            }
            assert forall|j: int|
                0 <= j < pre[cn].slots@.len() implies fin[cn].slots@[j] == (if (tcb.cspace_root
                    is Some && j == cs_slot) || (tcb.vspace_root is Some && j == vs_slot) {
                    None
                } else {
                    pre[cn].slots@[j]
                }) by {
                if cs_root is Some {
                    assert(m2[cn].slots@ == m1[cn].slots@.update(cs_slot as int, None));
                }
                if vs_root is Some {
                    assert(fin[cn].slots@ == m2[cn].slots@.update(vs_slot as int, None));
                }
            }
        }
        Ok(())
    }
}

/// Rewriting a task that is not Blocked (or not present) cannot affect
/// any endpoint queue: queues hold Blocked tasks only.
proof fn lemma_eps_touch_nonwaiting(
    eps: Seq<Endpoint>,
    tasks: Seq<Option<crate::sched::Tcb>>,
    tasks2: Seq<Option<crate::sched::Tcb>>,
    tid: usize,
)
    requires
        eps_wf(eps, tasks),
        tasks2.len() == tasks.len(),
        forall|t: int| 0 <= t < tasks.len() && t != tid ==> tasks2[t] == tasks[t],
        task_at(tasks, tid) ==> tasks[tid as int]->0.state != TaskState::Blocked,
    ensures
        eps_wf(eps, tasks2),
{
    assert forall|e: int| 0 <= e < eps.len() implies (#[trigger] eps[e]).wf()
        && eps[e].queues_wf(tasks2) by {
        let ep = eps[e];
        assert(ep.queues_wf(tasks));
        assert forall|i: int|
            0 <= i < ep.senders@.len() implies task_at(
            tasks2,
            (#[trigger] ep.senders@[i]).task,
        ) && tasks2[ep.senders@[i].task as int]->0.state == TaskState::Blocked by {
            let m = ep.senders@[i].task;
            assert(tasks[m as int]->0.state == TaskState::Blocked);
            assert(m != tid);
            assert(tasks2[m as int] == tasks[m as int]);
        }
        assert forall|i: int|
            0 <= i < ep.receivers@.len() implies task_at(tasks2, #[trigger] ep.receivers@[i])
            && tasks2[ep.receivers@[i] as int]->0.state == TaskState::Blocked by {
            let m = ep.receivers@[i];
            assert(tasks[m as int]->0.state == TaskState::Blocked);
            assert(m != tid);
            assert(tasks2[m as int] == tasks[m as int]);
        }
    }
}

/// Some live table entry is already backed by TCB object `o`.
pub open spec fn tcb_obj_in_use(tasks: Seq<Option<crate::sched::Tcb>>, o: usize) -> bool {
    exists|i: int|
        0 <= i < tasks.len() && (#[trigger] tasks[i]) is Some && tasks[i]->0.tcb_obj == Some(o)
}

impl Kernel {
    /// Creates a task in the first free table slot, Ready at `prio`,
    /// holding the given root capabilities and backed by the retyped
    /// TaskControlBlock object behind `tcb` (boot-time tasks, which
    /// predate retyping, pass `None`). A TCB object can back at most one
    /// table entry at a time. Fails `TooManyTasks` exactly when every
    /// slot is occupied.
    #[verifier::loop_isolation(false)]
    pub fn create_task(
        &mut self,
        tcb: Option<Capability>,
        prio: usize,
        cspace_root: Option<Capability>,
        vspace_root: Option<Capability>,
    ) -> (r: KernelResult<usize>)
        requires
            old(self).wf(),
        ensures
            final(self).wf(),
            final(self).cspace == old(self).cspace,
            final(self).endpoints == old(self).endpoints,
            final(self).spaces == old(self).spaces,
            match r {
                Ok(tid) => {
                    &&& match tcb {
                        Some(c) => resolve_err(
                            old(self).cspace.objects@,
                            c,
                            CapabilityType::TaskControlBlock,
                        ) is None && !tcb_obj_in_use(old(self).tasks.tasks@, c.obj),
                        None => true,
                    }
                    &&& tid < old(self).tasks.tasks@.len()
                    &&& old(self).tasks.tasks@[tid as int] is None
                    &&& final(self).tasks.tasks@ == old(self).tasks.tasks@.update(
                        tid as int,
                        Some(
                            crate::sched::Tcb {
                                state: TaskState::Ready,
                                prio,
                                cspace_root,
                                vspace_root,
                                tcb_obj: match tcb {
                                    Some(c) => Some(c.obj),
                                    None => None,
                                },
                                regs: crate::sched::Registers {
                                    pc: 0,
                                    sp: 0,
                                    a: [0, 0, 0, 0, 0, 0, 0, 0],
                                },
                                mailbox: None,
                            },
                        ),
                    )
                    &&& crate::sched::enqueued(
                        final(self).tasks.tasks@,
                        old(self).tasks.ready@,
                        final(self).tasks.ready@,
                        tid,
                    )
                    &&& final(self).tasks.running == old(self).tasks.running
                },
                Err(e) => {
                    &&& final(self).tasks == old(self).tasks
                    &&& match tcb {
                        Some(c) => {
                            if resolve_err(
                                old(self).cspace.objects@,
                                c,
                                CapabilityType::TaskControlBlock,
                            ) is Some {
                                Some(e.e_kind) == resolve_err(
                                    old(self).cspace.objects@,
                                    c,
                                    CapabilityType::TaskControlBlock,
                                )
                            } else if tcb_obj_in_use(old(self).tasks.tasks@, c.obj) {
                                e.e_kind == ErrKind::InvalidOperation
                            } else {
                                e.e_kind == ErrKind::TooManyTasks && (forall|k: int|
                                    0 <= k < old(self).tasks.tasks@.len() ==> old(
                                        self,
                                    ).tasks.tasks@[k] is Some)
                            }
                        },
                        None => e.e_kind == ErrKind::TooManyTasks && (forall|k: int|
                            0 <= k < old(self).tasks.tasks@.len() ==> old(self).tasks.tasks@[k]
                                is Some),
                    }
                },
            },
    {
        let tcb_obj = match tcb {
            Some(c) => {
                if let Err(e) = self.resolve(&c, CapabilityType::TaskControlBlock) {
                    return Err(e);
                }
                // At most one table entry per TCB object.
                let n = self.tasks.tasks.len();
                let mut i: usize = 0;
                while i < n
                    invariant
                        i <= n,
                        *self == *old(self),
                        forall|k: int|
                            0 <= k < i ==> !((#[trigger] self.tasks.tasks@[k]) is Some
                                && self.tasks.tasks@[k]->0.tcb_obj == Some(c.obj)),
                    decreases n - i,
                {
                    let used = match &self.tasks.tasks[i] {
                        Some(t) => match t.tcb_obj {
                            Some(o) => o == c.obj,
                            None => false,
                        },
                        None => false,
                    };
                    if used {
                        return Err(KernelError::new(ErrKind::InvalidOperation));
                    }
                    i += 1;
                }
                Some(c.obj)
            },
            None => None,
        };
        let ghost t0 = self.tasks.tasks@;
        let r = self.tasks.create_task(prio, cspace_root, vspace_root, tcb_obj);
        proof {
            match r {
                Ok(tid) => {
                    lemma_eps_touch_nonwaiting(
                        self.endpoints@,
                        t0,
                        self.tasks.tasks@,
                        tid,
                    );
                },
                Err(_) => {},
            }
        }
        r
    }

    /// Timer preemption at trap return; see `TaskTable::preempt`.
    pub fn preempt_running(&mut self)
        requires
            old(self).wf(),
            old(self).tasks.running is Some,
        ensures
            final(self).wf(),
            final(self).cspace == old(self).cspace,
            final(self).endpoints == old(self).endpoints,
            final(self).spaces == old(self).spaces,
            final(self).tasks.running is None,
            final(self).tasks.tasks@ == old(self).tasks.tasks@.update(
                old(self).tasks.running->0 as int,
                Some(
                    crate::sched::tcb_with_state(
                        old(self).tasks.tasks@[old(self).tasks.running->0 as int]->0,
                        TaskState::Ready,
                    ),
                ),
            ),
            crate::sched::enqueued(
                final(self).tasks.tasks@,
                old(self).tasks.ready@,
                final(self).tasks.ready@,
                old(self).tasks.running->0,
            ),
    {
        let ghost t0 = self.tasks.tasks@;
        let ghost tid = self.tasks.running->0;
        self.tasks.preempt();
        proof {
            assert(t0[tid as int]->0.state == TaskState::Running);
            lemma_eps_touch_nonwaiting(self.endpoints@, t0, self.tasks.tasks@, tid);
        }
    }

    /// Picks the next task to run; see `TaskTable::schedule`.
    pub fn schedule_next(&mut self) -> (r: Option<usize>)
        requires
            old(self).wf(),
            old(self).tasks.running is None,
        ensures
            final(self).wf(),
            final(self).cspace == old(self).cspace,
            final(self).endpoints == old(self).endpoints,
            final(self).spaces == old(self).spaces,
            match r {
                Some(tid) => {
                    &&& old(self).tasks.ready@.len() > 0
                    &&& tid == old(self).tasks.ready@[0]
                    &&& forall|k: int|
                        0 <= k < old(self).tasks.ready@.len() ==> crate::sched::prio_at(
                            old(self).tasks.tasks@,
                            #[trigger] old(self).tasks.ready@[k],
                        ) <= crate::sched::prio_at(old(self).tasks.tasks@, tid)
                    &&& final(self).tasks.running == Some(tid)
                },
                None => {
                    &&& old(self).tasks.ready@.len() == 0
                    &&& final(self).tasks == old(self).tasks
                },
            },
    {
        let ghost t0 = self.tasks.tasks@;
        let r = self.tasks.schedule();
        proof {
            match r {
                Some(tid) => {
                    assert(t0[tid as int]->0.state == TaskState::Ready);
                    lemma_eps_touch_nonwaiting(self.endpoints@, t0, self.tasks.tasks@, tid);
                },
                None => {},
            }
        }
        r
    }

    /// Reclaims a Zombie's table slot; see `TaskTable::reclaim`.
    pub fn reclaim_task(&mut self, tid: usize) -> (r: KernelResult<()>)
        requires
            old(self).wf(),
        ensures
            final(self).wf(),
            final(self).cspace == old(self).cspace,
            final(self).endpoints == old(self).endpoints,
            final(self).spaces == old(self).spaces,
            match r {
                Ok(_) => {
                    &&& task_at(old(self).tasks.tasks@, tid)
                    &&& old(self).tasks.tasks@[tid as int]->0.state == TaskState::Zombie
                    &&& final(self).tasks.tasks@ == old(self).tasks.tasks@.update(
                        tid as int,
                        None,
                    )
                    &&& final(self).tasks.ready@ == old(self).tasks.ready@
                    &&& final(self).tasks.running == old(self).tasks.running
                },
                Err(e) => {
                    &&& final(self).tasks == old(self).tasks
                    &&& if !task_at(old(self).tasks.tasks@, tid) {
                        e.e_kind == ErrKind::ProcessNotFound
                    } else {
                        e.e_kind == ErrKind::InvalidOperation
                    }
                },
            },
    {
        let ghost t0 = self.tasks.tasks@;
        let r = self.tasks.reclaim(tid);
        proof {
            match r {
                Ok(_) => {
                    lemma_eps_touch_nonwaiting(self.endpoints@, t0, self.tasks.tasks@, tid);
                },
                Err(_) => {},
            }
        }
        r
    }

    /// Terminates task `tid`: it is removed from whatever Endpoint queue
    /// it occupies — no orphaned entries — then becomes a Zombie off the
    /// ready queue and the processor. The TCB slot and backing objects
    /// are reclaimed through the capability space (`delete`/`revoke` on
    /// the slots holding its TCB and root capabilities), which this call
    /// leaves untouched. Fails `ProcessNotFound` when no live TCB sits
    /// at `tid`.
    #[verifier::loop_isolation(false)]
    pub fn terminate_task(&mut self, tid: usize) -> (r: KernelResult<()>)
        requires
            old(self).wf(),
        ensures
            final(self).wf(),
            final(self).cspace == old(self).cspace,
            final(self).spaces == old(self).spaces,
            final(self).endpoints@.len() == old(self).endpoints@.len(),
            match r {
                Ok(_) => terminated_post(*old(self), *final(self), tid),
                Err(e) => {
                    &&& e.e_kind == ErrKind::ProcessNotFound
                    &&& !task_at(old(self).tasks.tasks@, tid)
                    &&& final(self).tasks == old(self).tasks
                    &&& final(self).endpoints == old(self).endpoints
                },
            },
    {
        if tid >= self.tasks.tasks.len() || self.tasks.tasks[tid].is_none() {
            return Err(KernelError::new(ErrKind::ProcessNotFound));
        }
        // First cancel any wait-queue entry, so nothing is orphaned.
        let n = self.endpoints.len();
        let mut e: usize = 0;
        while e < n
            invariant
                e <= n,
                self.cspace == old(self).cspace,
                self.tasks == old(self).tasks,
                self.spaces == old(self).spaces,
                self.endpoints@.len() == n,
                eps_wf(self.endpoints@, self.tasks.tasks@),
                forall|k: int| e <= k < n ==> self.endpoints@[k] == old(self).endpoints@[k],
                forall|k: int|
                    0 <= k < e ==> !in_queues(#[trigger] self.endpoints@[k], tid),
                forall|k: int|
                    0 <= k < e ==> crate::endpoint::waiters_cancelled(
                        (#[trigger] old(self).endpoints@[k]).senders@,
                        self.endpoints@[k].senders@,
                        tid,
                    ) && crate::sched::dequeued(
                        old(self).endpoints@[k].receivers@,
                        self.endpoints@[k].receivers@,
                        tid,
                    ),
                forall|k: int|
                    0 <= k < e ==> (#[trigger] self.endpoints@[k]).received@
                        == old(self).endpoints@[k].received@ && self.endpoints@[k].capacity
                        == old(self).endpoints@[k].capacity,
            decreases n - e,
        {
            let ghost eps0 = self.endpoints@;
            proof {
                assert(eps0[e as int].wf() && eps0[e as int].queues_wf(self.tasks.tasks@));
            }
            let epr = &mut self.endpoints[e];
            epr.cancel(tid);
            proof {
                let epsn = self.endpoints@;
                assert forall|e1: int| 0 <= e1 < epsn.len() implies (#[trigger] epsn[e1]).wf()
                    && epsn[e1].queues_wf(self.tasks.tasks@) by {
                    if e1 != e {
                        assert(epsn[e1] == eps0[e1]);
                    }
                }
                assert forall|e1: int, e2: int, t: usize|
                    0 <= e1 < epsn.len() && 0 <= e2 < epsn.len() && e1 != e2 && #[trigger] in_queues(
                        epsn[e1],
                        t,
                    ) && #[trigger] in_queues(epsn[e2], t) implies false by {
                    if e1 == e {
                        assert(in_queues(eps0[e1], t));
                        assert(epsn[e2] == eps0[e2]);
                    } else if e2 == e {
                        assert(in_queues(eps0[e2], t));
                        assert(epsn[e1] == eps0[e1]);
                    } else {
                        assert(epsn[e1] == eps0[e1] && epsn[e2] == eps0[e2]);
                    }
                }
            }
            e += 1;
        }
        // Now the task waits nowhere; retire it.
        let ghost t0 = self.tasks.tasks@;
        let r = self.tasks.terminate(tid);
        proof {
            let eps = self.endpoints@;
            let tasks2 = self.tasks.tasks@;
            assert forall|e1: int| 0 <= e1 < eps.len() implies (#[trigger] eps[e1]).wf()
                && eps[e1].queues_wf(tasks2) by {
                let ep = eps[e1];
                assert(ep.queues_wf(t0));
                assert(!in_queues(ep, tid));
                assert forall|i: int|
                    0 <= i < ep.senders@.len() implies task_at(
                    tasks2,
                    (#[trigger] ep.senders@[i]).task,
                ) && tasks2[ep.senders@[i].task as int]->0.state == TaskState::Blocked by {
                    let m = ep.senders@[i].task;
                    if m == tid {
                        assert(in_queues(ep, tid));
                    }
                    assert(tasks2[m as int] == t0[m as int]);
                }
                assert forall|i: int|
                    0 <= i < ep.receivers@.len() implies task_at(
                    tasks2,
                    #[trigger] ep.receivers@[i],
                ) && tasks2[ep.receivers@[i] as int]->0.state == TaskState::Blocked by {
                    let m = ep.receivers@[i];
                    if m == tid {
                        assert(in_queues(ep, tid));
                    }
                    assert(tasks2[m as int] == t0[m as int]);
                }
            }
        }
        r
    }
}

/// Capability resolution in the running task's CSpace root, as the
/// dispatcher performs it: a task with no root fails `UnknownCapType`,
/// otherwise the root CNode is indexed with `lookup`'s exact errors.
pub open spec fn decode_cap(k: Kernel, cap_index: int) -> Result<Capability, ErrKind> {
    match k.tasks.tasks@[k.tasks.running->0 as int]->0.cspace_root {
        Some(root) => lookup_spec(k.cspace.objects@, root, cap_index),
        None => Err(ErrKind::UnknownCapType),
    }
}

/// The object variant each invocation label is defined on.
pub open spec fn label_variant(label: InvLabel) -> CapabilityType {
    match label {
        InvLabel::UntypedRetype => CapabilityType::Untyped,
        InvLabel::CNodeCopy => CapabilityType::CNode,
        InvLabel::CNodeDelete => CapabilityType::CNode,
        InvLabel::CNodeRevoke => CapabilityType::CNode,
        InvLabel::PageTableMap => CapabilityType::PageTable,
        InvLabel::PageMap => CapabilityType::PageTable,
        InvLabel::PageUnmap => CapabilityType::PageTable,
        InvLabel::EndpointSend => CapabilityType::Endpoint,
        InvLabel::EndpointRecv => CapabilityType::Endpoint,
    }
}

/// What a finished invocation has done, label by label, in terms of each
/// component operation's own outcome relation. The second capability
/// (where the label takes one) resolves through the same root, with
/// `lookup`'s errors passed through before the operation runs.
pub open spec fn invoke_outcome(
    pre: Kernel,
    post: Kernel,
    cap: Capability,
    label: InvLabel,
    args: InvokeArgs,
    r: KernelResult<Option<Message>>,
) -> bool {
    let root = pre.tasks.tasks@[pre.tasks.running->0 as int]->0.cspace_root->0;
    match label {
        InvLabel::UntypedRetype => match lookup_spec(
            pre.cspace.objects@,
            root,
            args.extra_cap as int,
        ) {
            Err(k2) => r matches Err(e) && e.e_kind == k2 && post == pre,
            Ok(dest) => match r {
                Ok(m) => m is None && retype_outcome(
                    pre,
                    post,
                    cap,
                    args.target,
                    args.obj_size,
                    dest,
                    args.dest_slots@,
                    Ok(()),
                ),
                Err(e) => retype_outcome(
                    pre,
                    post,
                    cap,
                    args.target,
                    args.obj_size,
                    dest,
                    args.dest_slots@,
                    Err(e),
                ),
            },
        },
        InvLabel::CNodeCopy => match r {
            Ok(m) => m is None && copy_outcome(
                pre,
                post,
                cap,
                args.src_slot,
                args.dest_slot,
                args.rights,
                Ok(()),
            ),
            Err(e) => copy_outcome(
                pre,
                post,
                cap,
                args.src_slot,
                args.dest_slot,
                args.rights,
                Err(e),
            ),
        },
        InvLabel::CNodeDelete => match r {
            Ok(m) => m is None && delete_outcome(pre, post, cap, args.dest_slot, Ok(())),
            Err(e) => delete_outcome(pre, post, cap, args.dest_slot, Err(e)),
        },
        InvLabel::CNodeRevoke => match r {
            Ok(m) => m is None && revoke_outcome(pre, post, cap, args.dest_slot, Ok(())),
            Err(e) => revoke_outcome(pre, post, cap, args.dest_slot, Err(e)),
        },
        InvLabel::PageTableMap => match lookup_spec(
            pre.cspace.objects@,
            root,
            args.extra_cap as int,
        ) {
            Err(k2) => r matches Err(e) && e.e_kind == k2 && post == pre,
            Ok(tbl) => match r {
                Ok(m) => m is None && map_table_outcome(pre, post, cap, tbl, args.vaddr, Ok(())),
                Err(e) => map_table_outcome(pre, post, cap, tbl, args.vaddr, Err(e)),
            },
        },
        InvLabel::PageMap => match lookup_spec(
            pre.cspace.objects@,
            root,
            args.extra_cap as int,
        ) {
            Err(k2) => r matches Err(e) && e.e_kind == k2 && post == pre,
            Ok(pg) => match r {
                Ok(m) => m is None && map_page_outcome(
                    pre,
                    post,
                    cap,
                    pg,
                    args.vaddr,
                    args.rights,
                    Ok(()),
                ),
                Err(e) => map_page_outcome(pre, post, cap, pg, args.vaddr, args.rights, Err(e)),
            },
        },
        InvLabel::PageUnmap => match r {
            Ok(m) => m is None && unmap_outcome(pre, post, cap, args.vaddr, Ok(())),
            Err(e) => unmap_outcome(pre, post, cap, args.vaddr, Err(e)),
        },
        InvLabel::EndpointSend => match r {
            Ok(m) => m is None && send_outcome(pre, post, cap, args.data, Ok(())),
            Err(e) => send_outcome(pre, post, cap, args.data, Err(e)),
        },
        InvLabel::EndpointRecv => recv_outcome(pre, post, cap, r),
    }
}

impl Kernel {
    /// One capability invocation by the running task: resolves slot
    /// `cap_index` in its CSpace root, checks the label against the
    /// object's variant (`UnknownInvocation` on mismatch), and routes to
    /// the owning component. Errors come back as values; kernel state
    /// never unwinds.
    pub fn invoke(&mut self, cap_index: usize, label: InvLabel, args: &InvokeArgs) -> (r:
        KernelResult<Option<Message>>)
        requires
            old(self).wf(),
            old(self).tasks.running is Some,
        ensures
            final(self).wf(),
            match decode_cap(*old(self), cap_index as int) {
                Err(k) => r matches Err(e) && e.e_kind == k && *final(self) == *old(self),
                Ok(cap) => {
                    if old(self).cspace.objects@[cap.obj as int].variant != label_variant(
                        label,
                    ) {
                        r matches Err(e) && e.e_kind == ErrKind::UnknownInvocation && *final(self)
                            == *old(self)
                    } else {
                        invoke_outcome(*old(self), *final(self), cap, label, *args, r)
                    }
                },
            },
    {
        let caller = match self.tasks.running {
            Some(t) => t,
            None => 0,
        };
        let root = match &self.tasks.tasks[caller] {
            Some(tcb) => match tcb.cspace_root {
                Some(c) => c,
                None => {
                    return Err(KernelError::new(ErrKind::UnknownCapType));
                },
            },
            None => {
                return Err(KernelError::new(ErrKind::UnknownCapType));
            },
        };
        let cap = match self.cspace.lookup(&root, cap_index) {
            Ok(c) => c,
            Err(e) => {
                return Err(e);
            },
        };
        proof {
            assert(crate::cspace::obj_wf(self.cspace.objects@, root.obj as int));
            assert(self.cspace.objects@[root.obj as int].slots@[cap_index as int] == Some(cap));
            assert(crate::cspace::cap_ok(self.cspace.objects@, cap));
        }
        let v = self.cspace.objects[cap.obj].variant;
        let want = match label {
            InvLabel::UntypedRetype => CapabilityType::Untyped,
            InvLabel::CNodeCopy => CapabilityType::CNode,
            InvLabel::CNodeDelete => CapabilityType::CNode,
            InvLabel::CNodeRevoke => CapabilityType::CNode,
            InvLabel::PageTableMap => CapabilityType::PageTable,
            InvLabel::PageMap => CapabilityType::PageTable,
            InvLabel::PageUnmap => CapabilityType::PageTable,
            InvLabel::EndpointSend => CapabilityType::Endpoint,
            InvLabel::EndpointRecv => CapabilityType::Endpoint,
        };
        let matches_variant = match (v, want) {
            (CapabilityType::Untyped, CapabilityType::Untyped) => true,
            (CapabilityType::TaskControlBlock, CapabilityType::TaskControlBlock) => true,
            (CapabilityType::Endpoint, CapabilityType::Endpoint) => true,
            (CapabilityType::CNode, CapabilityType::CNode) => true,
            (CapabilityType::PageTable, CapabilityType::PageTable) => true,
            (CapabilityType::Page, CapabilityType::Page) => true,
            _ => false,
        };
        if !matches_variant {
            return Err(KernelError::new(ErrKind::UnknownInvocation));
        }
        match label {
            InvLabel::UntypedRetype => {
                let dest = match self.cspace.lookup(&root, args.extra_cap) {
                    Ok(c) => c,
                    Err(e) => {
                        return Err(e);
                    },
                };
                match self.retype(&cap, args.target, args.obj_size, &dest, &args.dest_slots) {
                    Ok(_) => Ok(None),
                    Err(e) => Err(e),
                }
            },
            InvLabel::CNodeCopy => {
                match self.copy_cap(&cap, args.src_slot, args.dest_slot, args.rights) {
                    Ok(_) => Ok(None),
                    Err(e) => Err(e),
                }
            },
            InvLabel::CNodeDelete => {
                match self.delete_cap(&cap, args.dest_slot) {
                    Ok(_) => Ok(None),
                    Err(e) => Err(e),
                }
            },
            InvLabel::CNodeRevoke => {
                match self.revoke_cap(&cap, args.dest_slot) {
                    Ok(_) => Ok(None),
                    Err(e) => Err(e),
                }
            },
            InvLabel::PageTableMap => {
                let tbl = match self.cspace.lookup(&root, args.extra_cap) {
                    Ok(c) => c,
                    Err(e) => {
                        return Err(e);
                    },
                };
                match self.map_table(&cap, &tbl, args.vaddr) {
                    Ok(_) => Ok(None),
                    Err(e) => Err(e),
                }
            },
            InvLabel::PageMap => {
                let pg = match self.cspace.lookup(&root, args.extra_cap) {
                    Ok(c) => c,
                    Err(e) => {
                        return Err(e);
                    },
                };
                match self.map_page(&cap, &pg, args.vaddr, args.rights) {
                    Ok(_) => Ok(None),
                    Err(e) => Err(e),
                }
            },
            InvLabel::PageUnmap => {
                match self.unmap(&cap, args.vaddr) {
                    Ok(_) => Ok(None),
                    Err(e) => Err(e),
                }
            },
            InvLabel::EndpointSend => {
                match self.endpoint_send(&cap, args.data) {
                    Ok(_) => Ok(None),
                    Err(e) => Err(e),
                }
            },
            InvLabel::EndpointRecv => self.endpoint_recv(&cap),
        }
    }

    /// The trap entry: `Call` dispatches a capability invocation;
    /// `Yield` gives up the processor, requeuing the caller at the tail
    /// of its priority class. The next task to run is chosen by
    /// `schedule_next` at trap return.
    pub fn handle_syscall(
        &mut self,
        no: SysCallNo,
        cap_index: usize,
        label: InvLabel,
        args: &InvokeArgs,
    ) -> (r: KernelResult<Option<Message>>)
        requires
            old(self).wf(),
            old(self).tasks.running is Some,
        ensures
            final(self).wf(),
            match no {
                SysCallNo::Yield => {
                    &&& r == Ok::<Option<Message>, KernelError>(None)
                    &&& final(self).tasks.running is None
                    &&& crate::sched::enqueued(
                        final(self).tasks.tasks@,
                        old(self).tasks.ready@,
                        final(self).tasks.ready@,
                        old(self).tasks.running->0,
                    )
                },
                SysCallNo::Call => match decode_cap(*old(self), cap_index as int) {
                    Err(k) => r matches Err(e) && e.e_kind == k && *final(self) == *old(self),
                    Ok(cap) => {
                        if old(self).cspace.objects@[cap.obj as int].variant != label_variant(
                            label,
                        ) {
                            r matches Err(e) && e.e_kind == ErrKind::UnknownInvocation
                                && *final(self) == *old(self)
                        } else {
                            invoke_outcome(*old(self), *final(self), cap, label, *args, r)
                        }
                    },
                },
            },
    {
        match no {
            SysCallNo::Call => self.invoke(cap_index, label, args),
            SysCallNo::Yield => {
                self.preempt_running();
                Ok(None)
            },
        }
    }
}

/// Queue membership after the oldest receiver leaves.
proof fn lemma_source_recv_pop(pre: Endpoint, post: Endpoint)
    requires
        pre.receivers@.len() > 0,
        post.receivers@ == pre.receivers@.subrange(1, pre.receivers@.len() as int),
        post.senders@ == pre.senders@,
    ensures
        forall|t: usize| #[trigger] in_queues(post, t) ==> in_queues(pre, t),
{
    assert forall|t: usize| #[trigger] in_queues(post, t) implies in_queues(pre, t) by {
        if exists|i: int| 0 <= i < post.senders@.len() && (#[trigger] post.senders@[i]).task == t {
        } else {
            let i = choose|i: int|
                0 <= i < post.receivers@.len() && #[trigger] post.receivers@[i] == t;
            assert(post.receivers@[i] == pre.receivers@[i + 1]);
        }
    }
}

/// Queue membership after the oldest sender leaves.
proof fn lemma_source_send_pop(pre: Endpoint, post: Endpoint)
    requires
        pre.senders@.len() > 0,
        post.senders@ == pre.senders@.subrange(1, pre.senders@.len() as int),
        post.receivers@ == pre.receivers@,
    ensures
        forall|t: usize| #[trigger] in_queues(post, t) ==> in_queues(pre, t),
{
    assert forall|t: usize| #[trigger] in_queues(post, t) implies in_queues(pre, t) by {
        if exists|i: int| 0 <= i < post.receivers@.len() && #[trigger] post.receivers@[i] == t {
        } else {
            let i = choose|i: int|
                0 <= i < post.senders@.len() && (#[trigger] post.senders@[i]).task == t;
            assert(post.senders@[i] == pre.senders@[i + 1]);
        }
    }
}

/// Queue membership after one sender is pushed.
proof fn lemma_source_send_push(pre: Endpoint, post: Endpoint, w: crate::endpoint::Waiter)
    requires
        post.senders@ == pre.senders@.push(w),
        post.receivers@ == pre.receivers@,
    ensures
        forall|t: usize| #[trigger] in_queues(post, t) ==> in_queues(pre, t) || t == w.task,
{
    assert forall|t: usize| #[trigger] in_queues(post, t) implies in_queues(pre, t) || t
        == w.task by {
        if exists|i: int| 0 <= i < post.senders@.len() && (#[trigger] post.senders@[i]).task == t {
            let i = choose|i: int|
                0 <= i < post.senders@.len() && (#[trigger] post.senders@[i]).task == t;
            if i < pre.senders@.len() {
                assert(post.senders@[i] == pre.senders@[i]);
            }
        }
    }
}

/// Queue membership after one receiver is pushed.
proof fn lemma_source_recv_push(pre: Endpoint, post: Endpoint, t0: usize)
    requires
        post.receivers@ == pre.receivers@.push(t0),
        post.senders@ == pre.senders@,
    ensures
        forall|t: usize| #[trigger] in_queues(post, t) ==> in_queues(pre, t) || t == t0,
{
    assert forall|t: usize| #[trigger] in_queues(post, t) implies in_queues(pre, t) || t == t0 by {
        if exists|i: int| 0 <= i < post.senders@.len() && (#[trigger] post.senders@[i]).task == t {
        } else {
            let i = choose|i: int|
                0 <= i < post.receivers@.len() && #[trigger] post.receivers@[i] == t;
            if i < pre.receivers@.len() {
                assert(post.receivers@[i] == pre.receivers@[i]);
            }
        }
    }
}

} // verus!
