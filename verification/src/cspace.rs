//! The object store and capability space: an arena of kernel objects,
//! capability slots inside CNode objects, and the derivation tree that
//! drives retyping, copying, deletion and revocation.
//!
//! Design choices, fixed here and relied on by the contracts:
//! - Objects live in a grow-only arena; an object's identity is its arena
//!   index. A dead object keeps its index (indices are never reused), so a
//!   stale capability can never be re-bound to a new object.
//! - The derivation parent of every object is the Untyped object it was
//!   retyped from; capability copies are siblings (they share the source's
//!   object, hence its parent) and never extend the tree downwards.
//! - Untyped and Page capabilities cannot be copied (`CanNotDerivable`):
//!   an Untyped region therefore has a single owner capability, which is
//!   what makes subtree reclamation on `delete`/`revoke` safe.
//! - Space inside an Untyped is bump-allocated: `delete` of a child never
//!   returns space; only `revoke` on the Untyped capability resets its
//!   watermark, after every descendant capability has been deleted.

use vstd::prelude::*;

use crate::capability::{CapRights, Capability, CapabilityType};
use crate::common::{ErrKind, KernelError, KernelResult};

verus! {

/// Bytes of Untyped memory one CNode slot costs when a CNode is retyped.
pub const SLOT_BYTES: usize = 32;

/// One kernel object in the arena. Fields after `live` are per-variant
/// payload: `ut_*` is meaningful only for `Untyped`, `slots` only for
/// `CNode` (empty for every other variant).
pub struct Object {
    pub variant: CapabilityType,
    /// Size class fixed at creation, in bytes of backing memory.
    pub size: usize,
    /// Derivation parent: the Untyped object this one was carved out of.
    pub parent: Option<usize>,
    pub live: bool,
    /// Untyped payload: bump-allocation watermark.
    pub ut_used: usize,
    /// Untyped payload: device-backed region.
    pub ut_device: bool,
    /// CNode payload: the capability slots.
    pub slots: Vec<Option<Capability>>,
}

/// Field-wise equality on objects (spec-level; `slots` compared by view).
pub open spec fn obj_like(a: Object, b: Object) -> bool {
    &&& a.variant == b.variant
    &&& a.size == b.size
    &&& a.parent == b.parent
    &&& a.live == b.live
    &&& a.ut_used == b.ut_used
    &&& a.ut_device == b.ut_device
    &&& a.slots@ == b.slots@
}

/// A capability value is meaningful in `objs`: it names a live object.
pub open spec fn cap_ok(objs: Seq<Object>, c: Capability) -> bool {
    &&& c.obj < objs.len()
    &&& objs[c.obj as int].live
}

/// Number of CNode slots an object of this variant and size offers.
pub open spec fn slot_count_of(variant: CapabilityType, size: usize) -> nat {
    if variant == CapabilityType::CNode {
        (size / SLOT_BYTES) as nat
    } else {
        0
    }
}

/// Well-formedness of one object relative to the whole arena.
pub open spec fn obj_wf(objs: Seq<Object>, i: int) -> bool {
    &&& match objs[i].parent {
        Some(p) => p < i && objs[p as int].variant == CapabilityType::Untyped,
        None => true,
    }
    &&& objs[i].slots@.len() == slot_count_of(objs[i].variant, objs[i].size)
    &&& (objs[i].variant == CapabilityType::Untyped ==> objs[i].ut_used <= objs[i].size)
    &&& forall|j: int|
        0 <= j < objs[i].slots@.len() && objs[i].slots@[j] is Some ==> cap_ok(
            objs,
            objs[i].slots@[j]->0,
        )
    &&& (!objs[i].live ==> forall|j: int|
        0 <= j < objs[i].slots@.len() ==> objs[i].slots@[j] is None)
}

/// Well-formedness of the whole arena: parents precede children and are
/// Untyped, slot arrays match the size class, every stored capability
/// names a live object, and dead objects hold no capabilities.
pub open spec fn objs_wf(objs: Seq<Object>) -> bool {
    forall|i: int| 0 <= i < objs.len() ==> obj_wf(objs, i)
}

/// `x` is a proper derivation descendant of `u`: its parent chain passes
/// through `u`.
pub open spec fn is_desc(objs: Seq<Object>, u: int, x: int) -> bool
    decreases x,
{
    if 0 <= x < objs.len() {
        match objs[x].parent {
            Some(p) => p == u || (p < x && is_desc(objs, u, p as int)),
            None => false,
        }
    } else {
        false
    }
}

/// Relates a kernel result to its spec-level counterpart over `ErrKind`.
pub open spec fn res_is<T>(r: KernelResult<T>, s: Result<T, ErrKind>) -> bool {
    match r {
        Ok(v) => s == Ok::<T, ErrKind>(v),
        Err(e) => s == Err::<T, ErrKind>(e.e_kind),
    }
}

/// What `lookup` returns, including the exact error on every failing input:
/// a stale or out-of-range capability is `UnknownCapType`, a non-CNode
/// capability is `UnexpectedCapType`, an out-of-range index is
/// `InvalidOperation`, an empty slot is `SlotIsEmpty`.
pub open spec fn lookup_spec(objs: Seq<Object>, cnode: Capability, index: int) -> Result<
    Capability,
    ErrKind,
> {
    if !cap_ok(objs, cnode) {
        Err(ErrKind::UnknownCapType)
    } else if objs[cnode.obj as int].variant != CapabilityType::CNode {
        Err(ErrKind::UnexpectedCapType)
    } else if !(0 <= index < objs[cnode.obj as int].slots@.len()) {
        Err(ErrKind::InvalidOperation)
    } else {
        match objs[cnode.obj as int].slots@[index] {
            Some(c) => Ok(c),
            None => Err(ErrKind::SlotIsEmpty),
        }
    }
}

/// The capability space: the object arena. All operations address slots as
/// (CNode capability, index), as the dispatcher hands them in.
pub struct CapSpace {
    pub objects: Vec<Object>,
}

impl CapSpace {
    pub open spec fn wf(self) -> bool {
        objs_wf(self.objects@)
    }

    /// An empty store, populated at boot through `boot_cnode` / `boot_untyped`.
    pub fn new() -> (r: CapSpace)
        ensures
            r.wf(),
            r.objects@.len() == 0,
    {
        CapSpace { objects: Vec::new() }
    }

    /// Installs a root CNode object with `slot_count` empty slots, returning
    /// a full-rights capability to it. Used at boot, before user tasks run.
    pub fn boot_cnode(&mut self, slot_count: usize) -> (r: Capability)
        requires
            old(self).wf(),
            slot_count * SLOT_BYTES <= usize::MAX,
        ensures
            final(self).wf(),
            final(self).objects@.len() == old(self).objects@.len() + 1,
            forall|k: int|
                0 <= k < old(self).objects@.len() ==> obj_like(
                    final(self).objects@[k],
                    old(self).objects@[k],
                ),
            r.obj == old(self).objects@.len(),
            r.rights == (CapRights { read: true, write: true, grant: true }),
            r.badge == 0,
            final(self).objects@[r.obj as int].variant == CapabilityType::CNode,
            final(self).objects@[r.obj as int].live,
            final(self).objects@[r.obj as int].parent is None,
            final(self).objects@[r.obj as int].slots@.len() == slot_count,
            forall|j: int|
                0 <= j < slot_count ==> final(self).objects@[r.obj as int].slots@[j] is None,
    {
        let slots = empty_slots(slot_count);
        let idx = self.objects.len();
        self.objects.push(
            Object {
                variant: CapabilityType::CNode,
                size: slot_count * SLOT_BYTES,
                parent: None,
                live: true,
                ut_used: 0,
                ut_device: false,
                slots,
            },
        );
        proof {
            assert((slot_count * SLOT_BYTES) as int / (SLOT_BYTES as int) == slot_count) by {
                vstd::arithmetic::div_mod::lemma_div_multiples_vanish(
                    slot_count as int,
                    SLOT_BYTES as int,
                );
            }
            assert forall|i: int| 0 <= i < final(self).objects@.len() implies obj_wf(
                final(self).objects@,
                i,
            ) by {
                if i < old(self).objects@.len() {
                    assert(obj_wf(old(self).objects@, i));
                }
            }
        }
        Capability { obj: idx, rights: CapRights::full(), badge: 0 }
    }

    /// Installs a root Untyped object of `size` bytes, returning a
    /// full-rights capability to it. Used at boot.
    pub fn boot_untyped(&mut self, size: usize, device: bool) -> (r: Capability)
        requires
            old(self).wf(),
        ensures
            final(self).wf(),
            final(self).objects@.len() == old(self).objects@.len() + 1,
            forall|k: int|
                0 <= k < old(self).objects@.len() ==> obj_like(
                    final(self).objects@[k],
                    old(self).objects@[k],
                ),
            r.obj == old(self).objects@.len(),
            r.rights == (CapRights { read: true, write: true, grant: true }),
            r.badge == 0,
            final(self).objects@[r.obj as int].variant == CapabilityType::Untyped,
            final(self).objects@[r.obj as int].live,
            final(self).objects@[r.obj as int].parent is None,
            final(self).objects@[r.obj as int].size == size,
            final(self).objects@[r.obj as int].ut_used == 0,
            final(self).objects@[r.obj as int].ut_device == device,
    {
        let idx = self.objects.len();
        self.objects.push(
            Object {
                variant: CapabilityType::Untyped,
                size,
                parent: None,
                live: true,
                ut_used: 0,
                ut_device: device,
                slots: Vec::new(),
            },
        );
        proof {
            assert forall|i: int| 0 <= i < final(self).objects@.len() implies obj_wf(
                final(self).objects@,
                i,
            ) by {
                if i < old(self).objects@.len() {
                    assert(obj_wf(old(self).objects@, i));
                }
            }
        }
        Capability { obj: idx, rights: CapRights::full(), badge: 0 }
    }

    /// Resolves (CNode capability, index) to the capability stored there.
    pub fn lookup(&self, cnode: &Capability, index: usize) -> (r: KernelResult<Capability>)
        ensures
            res_is(r, lookup_spec(self.objects@, *cnode, index as int)),
    {
        if cnode.obj >= self.objects.len() || !self.objects[cnode.obj].live {
            return Err(KernelError::new(ErrKind::UnknownCapType));
        }
        if !matches!(self.objects[cnode.obj].variant, CapabilityType::CNode) {
            return Err(KernelError::new(ErrKind::UnexpectedCapType));
        }
        if index >= self.objects[cnode.obj].slots.len() {
            return Err(KernelError::new(ErrKind::InvalidOperation));
        }
        match self.objects[cnode.obj].slots[index] {
            Some(c) => Ok(c),
            None => Err(KernelError::new(ErrKind::SlotIsEmpty)),
        }
    }
}

/// `post` is `pre` with slot `j` of object `o` set to `v`, all else equal.
pub open spec fn objs_with_slot(
    pre: Seq<Object>,
    post: Seq<Object>,
    o: int,
    j: int,
    v: Option<Capability>,
) -> bool {
    &&& post.len() == pre.len()
    &&& forall|k: int| 0 <= k < pre.len() && k != o ==> obj_like(post[k], pre[k])
    &&& post[o].variant == pre[o].variant
    &&& post[o].size == pre[o].size
    &&& post[o].parent == pre[o].parent
    &&& post[o].live == pre[o].live
    &&& post[o].ut_used == pre[o].ut_used
    &&& post[o].ut_device == pre[o].ut_device
    &&& post[o].slots@ == pre[o].slots@.update(j, v)
}

/// The exact error `copy` reports, or `None` when it must succeed.
/// Checks run in this order: source CNode capability, source slot index
/// and occupancy, derivability of the source's variant, rights growth,
/// destination index, destination occupancy.
pub open spec fn copy_err(
    objs: Seq<Object>,
    cnode: Capability,
    src: int,
    dest: int,
    rights: CapRights,
) -> Option<ErrKind> {
    match lookup_spec(objs, cnode, src) {
        Err(k) => Some(k),
        Ok(c) => {
            let v = objs[c.obj as int].variant;
            if v == CapabilityType::Untyped || v == CapabilityType::Page {
                Some(ErrKind::CanNotDerivable)
            } else if !rights.subset_of(c.rights) {
                Some(ErrKind::InvalidOperation)
            } else if !(0 <= dest < objs[cnode.obj as int].slots@.len()) {
                Some(ErrKind::InvalidOperation)
            } else if objs[cnode.obj as int].slots@[dest] is Some {
                Some(ErrKind::NotEmptySlot)
            } else {
                None
            }
        },
    }
}

impl CapSpace {
    /// Copies the capability in slot `src` of `cnode` into its empty slot
    /// `dest`, narrowing the rights to `rights` (which must not exceed the
    /// source's). The copy is a derivation sibling: it shares the source's
    /// object and parent. Untyped and Page capabilities refuse derivation.
    pub fn copy(
        &mut self,
        cnode: &Capability,
        src: usize,
        dest: usize,
        rights: CapRights,
    ) -> (r: KernelResult<()>)
        requires
            old(self).wf(),
        ensures
            final(self).wf(),
            match r {
                Ok(_) => {
                    &&& copy_err(old(self).objects@, *cnode, src as int, dest as int, rights)
                        is None
                    &&& objs_with_slot(
                        old(self).objects@,
                        final(self).objects@,
                        cnode.obj as int,
                        dest as int,
                        Some(
                            Capability {
                                obj: lookup_spec(
                                    old(self).objects@,
                                    *cnode,
                                    src as int,
                                )->Ok_0.obj,
                                rights,
                                badge: lookup_spec(
                                    old(self).objects@,
                                    *cnode,
                                    src as int,
                                )->Ok_0.badge,
                            },
                        ),
                    )
                },
                Err(e) => {
                    &&& copy_err(old(self).objects@, *cnode, src as int, dest as int, rights)
                        == Some(e.e_kind)
                    &&& final(self).objects@ == old(self).objects@
                },
            },
    {
        let c = match self.lookup(cnode, src) {
            Ok(c) => c,
            Err(e) => {
                return Err(e);
            },
        };
        proof {
            assert(obj_wf(self.objects@, cnode.obj as int));
            assert(self.objects@[cnode.obj as int].slots@[src as int] == Some(c));
            assert(cap_ok(self.objects@, c));
        }
        let v = self.objects[c.obj].variant;
        if matches!(v, CapabilityType::Untyped) || matches!(v, CapabilityType::Page) {
            return Err(KernelError::new(ErrKind::CanNotDerivable));
        }
        if !rights.is_subset_of(&c.rights) {
            return Err(KernelError::new(ErrKind::InvalidOperation));
        }
        if dest >= self.objects[cnode.obj].slots.len() {
            return Err(KernelError::new(ErrKind::InvalidOperation));
        }
        if self.objects[cnode.obj].slots[dest].is_some() {
            return Err(KernelError::new(ErrKind::NotEmptySlot));
        }
        let new_cap = Capability { obj: c.obj, rights, badge: c.badge };
        set_slot(&mut self.objects, cnode.obj, dest, Some(new_cap));
        proof {
            lemma_set_slot_wf(
                old(self).objects@,
                final(self).objects@,
                cnode.obj as int,
                dest as int,
                Some(new_cap),
            );
        }
        Ok(())
    }
}

/// Variants that need zeroed backing memory and therefore cannot be
/// created from a device-backed Untyped region. Device regions may only
/// be split into further Untypeds or handed out as frames (Pages).
pub open spec fn needs_zeroing(target: CapabilityType) -> bool {
    target != CapabilityType::Untyped && target != CapabilityType::Page
}

/// Destination slot indices all in range for CNode `cn`.
pub open spec fn dests_in_range(objs: Seq<Object>, cn: int, dests: Seq<usize>) -> bool {
    forall|i: int| 0 <= i < dests.len() ==> dests[i] < objs[cn].slots@.len()
}

/// Some destination is unusable: its slot is occupied, or it repeats an
/// earlier destination (which would be occupied by the time it is written).
pub open spec fn dests_not_empty(objs: Seq<Object>, cn: int, dests: Seq<usize>) -> bool {
    exists|i: int|
        0 <= i < dests.len() && (objs[cn].slots@[dests[i] as int] is Some || exists|i2: int|
            0 <= i2 < i && dests[i2] == dests[i])
}

/// The exact error `retype` reports, or `None` when it must succeed.
/// Checks run in this order: Untyped capability, size class, device
/// restriction, destination CNode capability, remaining space, destination
/// range, destination occupancy.
pub open spec fn retype_err(
    objs: Seq<Object>,
    untyped: Capability,
    target: CapabilityType,
    obj_size: int,
    dest_cnode: Capability,
    dests: Seq<usize>,
) -> Option<ErrKind> {
    if !cap_ok(objs, untyped) {
        Some(ErrKind::UnknownCapType)
    } else if objs[untyped.obj as int].variant != CapabilityType::Untyped {
        Some(ErrKind::UnexpectedCapType)
    } else if obj_size <= 0 {
        Some(ErrKind::InvalidOperation)
    } else if objs[untyped.obj as int].ut_device && needs_zeroing(target) {
        Some(ErrKind::CanNotNewFromDeviceMemory)
    } else if !cap_ok(objs, dest_cnode) {
        Some(ErrKind::UnknownCapType)
    } else if objs[dest_cnode.obj as int].variant != CapabilityType::CNode {
        Some(ErrKind::UnexpectedCapType)
    } else if dests.len() * obj_size > objs[untyped.obj as int].size - objs[untyped.obj as int].ut_used {
        Some(ErrKind::OutOfMemory)
    } else if !dests_in_range(objs, dest_cnode.obj as int, dests) {
        Some(ErrKind::NoEnoughSlot)
    } else if dests_not_empty(objs, dest_cnode.obj as int, dests) {
        Some(ErrKind::NotEmptySlot)
    } else {
        None
    }
}

/// The `i`-th object just created by a retype: variant and size class as
/// requested, derivation child of `u`, fresh payload, device bit inherited.
pub open spec fn new_obj_ok(
    o: Object,
    target: CapabilityType,
    obj_size: int,
    u: int,
    device: bool,
) -> bool {
    &&& o.variant == target
    &&& o.size == obj_size
    &&& o.parent == Some(u as usize)
    &&& o.live
    &&& o.ut_used == 0
    &&& o.ut_device == device
    &&& o.slots@.len() == slot_count_of(target, o.size)
    &&& forall|j: int| 0 <= j < o.slots@.len() ==> o.slots@[j] is None
}

/// How a successful retype transforms the arena: `dests.len()` fresh
/// objects appended, one capability per object installed in the requested
/// slots of `cn`, the Untyped's watermark bumped, everything else equal.
pub open spec fn retype_post(
    pre: Seq<Object>,
    post: Seq<Object>,
    u: int,
    cn: int,
    target: CapabilityType,
    obj_size: int,
    dests: Seq<usize>,
) -> bool {
    let n = dests.len() as int;
    &&& post.len() == pre.len() + n
    &&& forall|k: int| 0 <= k < pre.len() && k != u && k != cn ==> obj_like(post[k], pre[k])
    &&& post[u].variant == pre[u].variant
    &&& post[u].size == pre[u].size
    &&& post[u].parent == pre[u].parent
    &&& post[u].live == pre[u].live
    &&& post[u].ut_device == pre[u].ut_device
    &&& post[u].slots@ == pre[u].slots@
    &&& post[u].ut_used == pre[u].ut_used + n * obj_size
    &&& post[cn].variant == pre[cn].variant
    &&& post[cn].size == pre[cn].size
    &&& post[cn].parent == pre[cn].parent
    &&& post[cn].live == pre[cn].live
    &&& post[cn].ut_used == pre[cn].ut_used
    &&& post[cn].ut_device == pre[cn].ut_device
    &&& post[cn].slots@.len() == pre[cn].slots@.len()
    &&& forall|j: int|
        0 <= j < pre[cn].slots@.len() && (forall|k: int| 0 <= k < n ==> dests[k] != j)
            ==> post[cn].slots@[j] == pre[cn].slots@[j]
    &&& forall|k: int|
        0 <= k < n ==> post[cn].slots@[dests[k] as int] == Some(
            Capability {
                obj: (pre.len() + k) as usize,
                rights: CapRights { read: true, write: true, grant: true },
                badge: 0,
            },
        )
    &&& forall|k: int|
        0 <= k < n ==> new_obj_ok(
            #[trigger] post[pre.len() + k],
            target,
            obj_size,
            u,
            pre[u].ut_device,
        )
}

/// `a <= b / k` says the same as `a * k <= b` (for `k > 0`): the form the
/// executable space check uses to avoid overflow.
pub proof fn lemma_le_div_iff(a: int, b: int, k: int)
    requires
        k > 0,
        0 <= a,
        0 <= b,
    ensures
        (a <= b / k) == (a * k <= b),
{
    let q = b / k;
    let r = b % k;
    vstd::arithmetic::div_mod::lemma_fundamental_div_mod(b, k);
    vstd::arithmetic::div_mod::lemma_mod_division_less_than_divisor(b, k);
    assert((a <= q) == (a * k <= b)) by (nonlinear_arith)
        requires
            b == q * k + r,
            0 <= r < k,
            0 <= a,
    {}
}

/// Writes slot `j` of object `o`.
fn set_slot(objs: &mut Vec<Object>, o: usize, j: usize, v: Option<Capability>)
    requires
        o < old(objs).len(),
        j < old(objs)@[o as int].slots@.len(),
    ensures
        objs_with_slot(old(objs)@, final(objs)@, o as int, j as int, v),
        final(objs)@[o as int].slots@.len() == old(objs)@[o as int].slots@.len(),
{
    let ob = &mut objs[o];
    ob.slots.set(j, v);
}

/// Sets the bump watermark of Untyped object `o`.
fn set_ut_used(objs: &mut Vec<Object>, o: usize, v: usize)
    requires
        o < old(objs).len(),
    ensures
        final(objs)@.len() == old(objs)@.len(),
        forall|k: int|
            0 <= k < old(objs)@.len() && k != o ==> obj_like(final(objs)@[k], old(objs)@[k]),
        final(objs)@[o as int].variant == old(objs)@[o as int].variant,
        final(objs)@[o as int].size == old(objs)@[o as int].size,
        final(objs)@[o as int].parent == old(objs)@[o as int].parent,
        final(objs)@[o as int].live == old(objs)@[o as int].live,
        final(objs)@[o as int].ut_device == old(objs)@[o as int].ut_device,
        final(objs)@[o as int].slots@ == old(objs)@[o as int].slots@,
        final(objs)@[o as int].ut_used == v,
{
    let ob = &mut objs[o];
    ob.ut_used = v;
}

impl CapSpace {
    /// `retype(untyped, target, obj_size, dest_cnode, dests)`: carves
    /// `dests.len()` regions of `obj_size` bytes out of the Untyped region
    /// behind `untyped`, starting at its current watermark (bump allocation,
    /// never reusing earlier offsets), creates one object of variant
    /// `target` per region, and installs one full-rights derivation-child
    /// capability per object into slot `dests[i]` of `dest_cnode`.
    #[verifier::loop_isolation(false)]
    pub fn retype(
        &mut self,
        untyped: &Capability,
        target: CapabilityType,
        obj_size: usize,
        dest_cnode: &Capability,
        dests: &Vec<usize>,
    ) -> (r: KernelResult<()>)
        requires
            old(self).wf(),
        ensures
            final(self).wf(),
            match r {
                Ok(_) => {
                    &&& retype_err(
                        old(self).objects@,
                        *untyped,
                        target,
                        obj_size as int,
                        *dest_cnode,
                        dests@,
                    ) is None
                    &&& retype_post(
                        old(self).objects@,
                        final(self).objects@,
                        untyped.obj as int,
                        dest_cnode.obj as int,
                        target,
                        obj_size as int,
                        dests@,
                    )
                },
                Err(e) => {
                    &&& retype_err(
                        old(self).objects@,
                        *untyped,
                        target,
                        obj_size as int,
                        *dest_cnode,
                        dests@,
                    ) == Some(e.e_kind)
                    &&& final(self).objects@ == old(self).objects@
                },
            },
    {
        if untyped.obj >= self.objects.len() || !self.objects[untyped.obj].live {
            return Err(KernelError::new(ErrKind::UnknownCapType));
        }
        if !matches!(self.objects[untyped.obj].variant, CapabilityType::Untyped) {
            return Err(KernelError::new(ErrKind::UnexpectedCapType));
        }
        if obj_size == 0 {
            return Err(KernelError::new(ErrKind::InvalidOperation));
        }
        if self.objects[untyped.obj].ut_device && !matches!(target, CapabilityType::Untyped)
            && !matches!(target, CapabilityType::Page) {
            return Err(KernelError::new(ErrKind::CanNotNewFromDeviceMemory));
        }
        if dest_cnode.obj >= self.objects.len() || !self.objects[dest_cnode.obj].live {
            return Err(KernelError::new(ErrKind::UnknownCapType));
        }
        if !matches!(self.objects[dest_cnode.obj].variant, CapabilityType::CNode) {
            return Err(KernelError::new(ErrKind::UnexpectedCapType));
        }
        proof {
            assert(obj_wf(self.objects@, untyped.obj as int));
        }
        let free = self.objects[untyped.obj].size - self.objects[untyped.obj].ut_used;
        let count = dests.len();
        proof {
            lemma_le_div_iff(count as int, free as int, obj_size as int);
        }
        if count > free / obj_size {
            return Err(KernelError::new(ErrKind::OutOfMemory));
        }
        let cn = dest_cnode.obj;
        let u = untyped.obj;
        proof {
            assert(u != cn);
        }
        let mut i: usize = 0;
        while i < count
            invariant
                i <= count,
                count == dests@.len(),
                cn < self.objects@.len(),
                self.objects == old(self).objects,
                forall|k: int| 0 <= k < i ==> dests@[k] < self.objects@[cn as int].slots@.len(),
            decreases count - i,
        {
            if dests[i] >= self.objects[cn].slots.len() {
                return Err(KernelError::new(ErrKind::NoEnoughSlot));
            }
            i += 1;
        }
        i = 0;
        while i < count
            invariant
                i <= count,
                count == dests@.len(),
                cn < self.objects@.len(),
                self.objects == old(self).objects,
                forall|k: int|
                    0 <= k < i ==> self.objects@[cn as int].slots@[dests@[k] as int] is None,
                forall|k1: int, k2: int| 0 <= k1 < k2 < i ==> dests@[k1] != dests@[k2],
                dests_in_range(self.objects@, cn as int, dests@),
            decreases count - i,
        {
            if self.objects[cn].slots[dests[i]].is_some() {
                return Err(KernelError::new(ErrKind::NotEmptySlot));
            }
            let mut i2: usize = 0;
            while i2 < i
                invariant
                    i2 <= i <= count,
                    count == dests@.len(),
                    forall|k: int| 0 <= k < i2 ==> dests@[k] != dests@[i as int],
                decreases i - i2,
            {
                if dests[i2] == dests[i] {
                    return Err(KernelError::new(ErrKind::NotEmptySlot));
                }
                i2 += 1;
            }
            i += 1;
        }
        proof {
            assert(!dests_not_empty(self.objects@, cn as int, dests@));
        }
        // All checks passed: create the objects and install their capabilities.
        let ghost pre = self.objects@;
        let device = self.objects[u].ut_device;
        let slots_per = if matches!(target, CapabilityType::CNode) {
            obj_size / SLOT_BYTES
        } else {
            0
        };
        i = 0;
        while i < count
            invariant
                i <= count,
                count == dests@.len(),
                objs_wf(self.objects@),
                u < pre.len(),
                cn < pre.len(),
                u != cn,
                pre[u as int].variant == CapabilityType::Untyped,
                pre[cn as int].variant == CapabilityType::CNode,
                obj_size > 0,
                slots_per == slot_count_of(target, obj_size as usize),
                device == pre[u as int].ut_device,
                dests_in_range(pre, cn as int, dests@),
                forall|k1: int, k2: int| 0 <= k1 < k2 < count ==> dests@[k1] != dests@[k2],
                self.objects@.len() == pre.len() + i,
                forall|k: int|
                    0 <= k < pre.len() && k != cn ==> obj_like(self.objects@[k], pre[k]),
                self.objects@[cn as int].variant == pre[cn as int].variant,
                self.objects@[cn as int].size == pre[cn as int].size,
                self.objects@[cn as int].parent == pre[cn as int].parent,
                self.objects@[cn as int].live == pre[cn as int].live,
                self.objects@[cn as int].ut_used == pre[cn as int].ut_used,
                self.objects@[cn as int].ut_device == pre[cn as int].ut_device,
                self.objects@[cn as int].slots@.len() == pre[cn as int].slots@.len(),
                forall|j: int|
                    0 <= j < pre[cn as int].slots@.len() && (forall|k: int|
                        0 <= k < i ==> dests@[k] != j) ==> self.objects@[cn as int].slots@[j]
                        == pre[cn as int].slots@[j],
                forall|k: int|
                    0 <= k < i ==> self.objects@[cn as int].slots@[dests@[k] as int] == Some(
                        Capability {
                            obj: (pre.len() + k) as usize,
                            rights: CapRights { read: true, write: true, grant: true },
                            badge: 0,
                        },
                    ),
                forall|k: int|
                    0 <= k < i ==> new_obj_ok(
                        #[trigger] self.objects@[pre.len() + k],
                        target,
                        obj_size as int,
                        u as int,
                        device,
                    ),
            decreases count - i,
        {
            let idx = self.objects.len();
            let fresh_slots = empty_slots(slots_per);
            let ghost bp = self.objects@;
            self.objects.push(
                Object {
                    variant: target,
                    size: obj_size,
                    parent: Some(u),
                    live: true,
                    ut_used: 0,
                    ut_device: device,
                    slots: fresh_slots,
                },
            );
            proof {
                assert forall|k: int| 0 <= k < self.objects@.len() implies obj_wf(
                    self.objects@,
                    k,
                ) by {
                    if k < bp.len() {
                        assert(obj_wf(bp, k));
                        assert forall|j: int|
                            0 <= j < self.objects@[k].slots@.len() && self.objects@[k].slots@[j]
                                is Some implies cap_ok(self.objects@, self.objects@[k].slots@[j]->0)
                        by {
                            assert(self.objects@[k].slots@[j] == bp[k].slots@[j]);
                        }
                    }
                }
            }
            let new_cap = Capability { obj: idx, rights: CapRights::full(), badge: 0 };
            let ghost bs = self.objects@;
            set_slot(&mut self.objects, cn, dests[i], Some(new_cap));
            proof {
                lemma_set_slot_wf(
                    bs,
                    self.objects@,
                    cn as int,
                    dests@[i as int] as int,
                    Some(new_cap),
                );
            }
            i += 1;
        }
        let used = self.objects[u].ut_used;
        proof {
            assert(count * obj_size <= free);
        }
        let ghost bu = self.objects@;
        set_ut_used(&mut self.objects, u, used + count * obj_size);
        proof {
            lemma_wf_watermark_frame(bu, self.objects@, u as int);
        }
        Ok(())
    }
}

/// Changing only watermarks (keeping them within the size class) preserves
/// arena well-formedness.
proof fn lemma_wf_watermark_frame(pre: Seq<Object>, post: Seq<Object>, u: int)
    requires
        objs_wf(pre),
        post.len() == pre.len(),
        forall|k: int| 0 <= k < pre.len() && k != u ==> obj_like(post[k], pre[k]),
        0 <= u < pre.len(),
        post[u].variant == pre[u].variant,
        post[u].size == pre[u].size,
        post[u].parent == pre[u].parent,
        post[u].live == pre[u].live,
        post[u].slots@ == pre[u].slots@,
        post[u].variant == CapabilityType::Untyped ==> post[u].ut_used <= post[u].size,
    ensures
        objs_wf(post),
{
    assert forall|i: int| 0 <= i < post.len() implies obj_wf(post, i) by {
        assert(obj_wf(pre, i));
        assert forall|j: int|
            0 <= j < post[i].slots@.len() && post[i].slots@[j] is Some implies cap_ok(
            post,
            post[i].slots@[j]->0,
        ) by {
            assert(post[i].slots@[j] == pre[i].slots@[j]);
            let c = pre[i].slots@[j]->0;
            assert(cap_ok(pre, c));
            if c.obj as int != u {
                assert(obj_like(post[c.obj as int], pre[c.obj as int]));
            }
        }
    }
}

/// A slot write whose new value (if any) names a live object and lands in
/// a live CNode preserves arena well-formedness; clearing a slot always
/// does.
proof fn lemma_set_slot_wf(
    pre: Seq<Object>,
    post: Seq<Object>,
    o: int,
    j: int,
    v: Option<Capability>,
)
    requires
        objs_wf(pre),
        0 <= o < pre.len(),
        0 <= j < pre[o].slots@.len(),
        objs_with_slot(pre, post, o, j, v),
        v is Some ==> pre[o].live && cap_ok(pre, v->0),
    ensures
        objs_wf(post),
{
    assert forall|i: int| 0 <= i < post.len() implies obj_wf(post, i) by {
        assert(obj_wf(pre, i));
        assert forall|jj: int|
            0 <= jj < post[i].slots@.len() && post[i].slots@[jj] is Some implies cap_ok(
            post,
            post[i].slots@[jj]->0,
        ) by {
            if i == o && jj == j {
            } else {
                assert(post[i].slots@[jj] == pre[i].slots@[jj]);
            }
        }
    }
}

/// What one slot holds after every capability to a proper descendant of
/// `u` has been deleted: a dead or newly-dead object keeps no
/// capabilities; a surviving object loses exactly the capabilities that
/// name descendants of `u`.
pub open spec fn sweep_slot(pre: Seq<Object>, u: int, k: int, j: int) -> Option<Capability> {
    if pre[k].live && !is_desc(pre, u, k) {
        match pre[k].slots@[j] {
            Some(c) => if is_desc(pre, u, c.obj as int) {
                None
            } else {
                Some(c)
            },
            None => None,
        }
    } else {
        None
    }
}

/// The scalar fields of object `k` after a sweep below `u`: descendants
/// of `u` die, `u`'s own watermark is reset to zero, all else is kept.
pub open spec fn sweep_obj_scalars(pre: Seq<Object>, post: Seq<Object>, u: int, k: int) -> bool {
    &&& post[k].variant == pre[k].variant
    &&& post[k].size == pre[k].size
    &&& post[k].parent == pre[k].parent
    &&& post[k].ut_device == pre[k].ut_device
    &&& post[k].live == (pre[k].live && !is_desc(pre, u, k))
    &&& post[k].ut_used == (if is_desc(pre, u, k) || k == u {
        0usize
    } else {
        pre[k].ut_used
    })
    &&& post[k].slots@.len() == pre[k].slots@.len()
}

/// Object `k` is fully rewritten by the sweep below `u`.
pub open spec fn sweep_obj_done(pre: Seq<Object>, cur: Seq<Object>, u: int, k: int) -> bool {
    &&& sweep_obj_scalars(pre, cur, u, k)
    &&& forall|j: int|
        0 <= j < pre[k].slots@.len() ==> cur[k].slots@[j] == sweep_slot(pre, u, k, j)
}

/// How a sweep below `u` (the working half of `revoke`) transforms the
/// arena: every proper descendant of `u` dies, every capability naming
/// one disappears from every slot, `u`'s free pool is whole again, and
/// nothing else changes.
pub open spec fn sweep_post(pre: Seq<Object>, post: Seq<Object>, u: int) -> bool {
    &&& post.len() == pre.len()
    &&& forall|k: int| 0 <= k < pre.len() ==> sweep_obj_done(pre, post, u, k)
}

/// Touching only object `k` keeps earlier objects' sweep results and
/// later objects' original state intact.
proof fn lemma_sweep_loop_frame(
    pre: Seq<Object>,
    a: Seq<Object>,
    b: Seq<Object>,
    u: int,
    k: int,
)
    requires
        a.len() == pre.len(),
        b.len() == pre.len(),
        0 <= k < pre.len(),
        forall|kk: int| 0 <= kk < pre.len() && kk != k ==> obj_like(b[kk], a[kk]),
        forall|kk: int| 0 <= kk < k ==> sweep_obj_done(pre, a, u, kk),
        forall|kk: int| k < kk < pre.len() ==> obj_like(a[kk], pre[kk]),
    ensures
        forall|kk: int| 0 <= kk < k ==> sweep_obj_done(pre, b, u, kk),
        forall|kk: int| k < kk < pre.len() ==> obj_like(b[kk], pre[kk]),
{
    assert forall|kk: int| 0 <= kk < k implies sweep_obj_done(pre, b, u, kk) by {
        assert(sweep_obj_done(pre, a, u, kk));
        assert(obj_like(b[kk], a[kk]));
        assert forall|j: int| 0 <= j < pre[kk].slots@.len() implies b[kk].slots@[j] == sweep_slot(
            pre,
            u,
            kk,
            j,
        ) by {
            assert(a[kk].slots@[j] == sweep_slot(pre, u, kk, j));
        }
    }
    assert forall|kk: int| k < kk < pre.len() implies obj_like(b[kk], pre[kk]) by {
        assert(obj_like(a[kk], pre[kk]));
        assert(obj_like(b[kk], a[kk]));
    }
}

/// Object `k` after `delete` of an Untyped capability at (`cn`, `idx`):
/// swept below `u`, with that one slot cleared as well.
pub open spec fn delete_obj_done(
    pre: Seq<Object>,
    post: Seq<Object>,
    u: int,
    cn: int,
    idx: int,
    k: int,
) -> bool {
    &&& sweep_obj_scalars(pre, post, u, k)
    &&& forall|j: int|
        0 <= j < pre[k].slots@.len() ==> post[k].slots@[j] == (if k == cn && j == idx {
            None
        } else {
            sweep_slot(pre, u, k, j)
        })
}

/// `delete` on a slot holding an Untyped capability: the sweep below that
/// Untyped composed with clearing the slot itself.
pub open spec fn delete_swept_post(
    pre: Seq<Object>,
    post: Seq<Object>,
    u: int,
    cn: int,
    idx: int,
) -> bool {
    &&& post.len() == pre.len()
    &&& forall|k: int| 0 <= k < pre.len() ==> delete_obj_done(pre, post, u, cn, idx, k)
}

impl CapSpace {
    /// Deletes every capability that names a proper derivation descendant
    /// of `u`, marks those objects dead, and resets `u`'s bump watermark,
    /// making its whole region allocatable again.
    #[verifier::loop_isolation(false)]
    fn sweep(&mut self, u: usize)
        requires
            old(self).wf(),
            u < old(self).objects@.len(),
        ensures
            final(self).wf(),
            sweep_post(old(self).objects@, final(self).objects@, u as int),
    {
        let ghost pre = self.objects@;
        let n = self.objects.len();
        // Phase 1: compute the descendant flags. Parents precede children
        // in the arena, so one forward pass settles the whole relation.
        let mut desc: Vec<bool> = Vec::new();
        let mut k: usize = 0;
        while k < n
            invariant
                k <= n,
                desc@.len() == k,
                forall|j: int| 0 <= j < k ==> desc@[j] == is_desc(pre, u as int, j),
            decreases n - k,
        {
            proof {
                assert(obj_wf(pre, k as int));
            }
            let d = match self.objects[k].parent {
                Some(p) => p == u || desc[p],
                None => false,
            };
            desc.push(d);
            k += 1;
        }
        // Phase 2: rewrite each object in place.
        k = 0;
        while k < n
            invariant
                k <= n,
                self.objects@.len() == n,
                forall|kk: int| 0 <= kk < k ==> sweep_obj_done(pre, self.objects@, u as int, kk),
                forall|kk: int| k <= kk < n ==> obj_like(self.objects@[kk], pre[kk]),
            decreases n - k,
        {
            proof {
                assert(obj_wf(pre, k as int));
                assert(obj_like(self.objects@[k as int], pre[k as int]));
            }
            let len = self.objects[k].slots.len();
            if desc[k] {
                // The object dies: clear every slot, then mark it dead.
                let mut j: usize = 0;
                while j < len
                    invariant
                        j <= len,
                        self.objects@.len() == n,
                        forall|kk: int|
                            0 <= kk < k ==> sweep_obj_done(pre, self.objects@, u as int, kk),
                        forall|kk: int| k < kk < n ==> obj_like(self.objects@[kk], pre[kk]),
                        self.objects@[k as int].variant == pre[k as int].variant,
                        self.objects@[k as int].size == pre[k as int].size,
                        self.objects@[k as int].parent == pre[k as int].parent,
                        self.objects@[k as int].ut_device == pre[k as int].ut_device,
                        self.objects@[k as int].live == pre[k as int].live,
                        self.objects@[k as int].ut_used == pre[k as int].ut_used,
                        self.objects@[k as int].slots@.len() == len,
                        forall|jj: int| 0 <= jj < j ==> self.objects@[k as int].slots@[jj] is None,
                        forall|jj: int|
                            j <= jj < len ==> self.objects@[k as int].slots@[jj] == pre[
                                k as int
                            ].slots@[jj],
                    decreases len - j,
                {
                    let ghost sp = self.objects@;
                    set_slot(&mut self.objects, k, j, None);
                    proof {
                        lemma_sweep_loop_frame(pre, sp, self.objects@, u as int, k as int);
                    }
                    j += 1;
                }
                let ghost sp1 = self.objects@;
                set_live(&mut self.objects, k, false);
                proof {
                    lemma_sweep_loop_frame(pre, sp1, self.objects@, u as int, k as int);
                }
                let ghost sp2 = self.objects@;
                set_ut_used(&mut self.objects, k, 0);
                proof {
                    lemma_sweep_loop_frame(pre, sp2, self.objects@, u as int, k as int);
                    assert(sweep_obj_done(pre, self.objects@, u as int, k as int));
                }
            } else {
                // The object survives: drop only capabilities to descendants.
                if k == u {
                    let ghost sp0 = self.objects@;
                    set_ut_used(&mut self.objects, k, 0);
                    proof {
                        lemma_sweep_loop_frame(pre, sp0, self.objects@, u as int, k as int);
                    }
                }
                let mut j: usize = 0;
                while j < len
                    invariant
                        j <= len,
                        self.objects@.len() == n,
                        forall|kk: int|
                            0 <= kk < k ==> sweep_obj_done(pre, self.objects@, u as int, kk),
                        forall|kk: int| k < kk < n ==> obj_like(self.objects@[kk], pre[kk]),
                        self.objects@[k as int].variant == pre[k as int].variant,
                        self.objects@[k as int].size == pre[k as int].size,
                        self.objects@[k as int].parent == pre[k as int].parent,
                        self.objects@[k as int].ut_device == pre[k as int].ut_device,
                        self.objects@[k as int].live == pre[k as int].live,
                        self.objects@[k as int].ut_used == (if k == u {
                            0usize
                        } else {
                            pre[k as int].ut_used
                        }),
                        self.objects@[k as int].slots@.len() == len,
                        forall|jj: int|
                            0 <= jj < j ==> self.objects@[k as int].slots@[jj] == sweep_slot(
                                pre,
                                u as int,
                                k as int,
                                jj,
                            ),
                        forall|jj: int|
                            j <= jj < len ==> self.objects@[k as int].slots@[jj] == pre[
                                k as int
                            ].slots@[jj],
                    decreases len - j,
                {
                    let cur = self.objects[k].slots[j];
                    match cur {
                        Some(c) => {
                            proof {
                                assert(pre[k as int].slots@[j as int] == Some(c));
                                assert(cap_ok(pre, c));
                            }
                            if desc[c.obj] {
                                let ghost sp = self.objects@;
                                set_slot(&mut self.objects, k, j, None);
                                proof {
                                    lemma_sweep_loop_frame(
                                        pre,
                                        sp,
                                        self.objects@,
                                        u as int,
                                        k as int,
                                    );
                                }
                            }
                        },
                        None => {},
                    }
                    j += 1;
                }
                proof {
                    assert(sweep_obj_done(pre, self.objects@, u as int, k as int));
                }
            }
            k += 1;
        }
        proof {
            lemma_sweep_wf(pre, self.objects@, u as int);
        }
    }

    /// `delete(cnode, index)`: removes the one capability stored there.
    /// If it is an Untyped capability — an internal node of the derivation
    /// tree — its whole subtree is reclaimed first, exactly as `revoke`
    /// would. The backing object itself is never freed here: objects are
    /// reclaimed only when an ancestor Untyped is revoked, so no
    /// capability can ever dangle.
    pub fn delete(&mut self, cnode: &Capability, index: usize) -> (r: KernelResult<()>)
        requires
            old(self).wf(),
        ensures
            final(self).wf(),
            match r {
                Ok(_) => {
                    &&& lookup_spec(old(self).objects@, *cnode, index as int) is Ok
                    &&& {
                        let c = lookup_spec(old(self).objects@, *cnode, index as int)->Ok_0;
                        if old(self).objects@[c.obj as int].variant == CapabilityType::Untyped {
                            delete_swept_post(
                                old(self).objects@,
                                final(self).objects@,
                                c.obj as int,
                                cnode.obj as int,
                                index as int,
                            )
                        } else {
                            objs_with_slot(
                                old(self).objects@,
                                final(self).objects@,
                                cnode.obj as int,
                                index as int,
                                None,
                            )
                        }
                    }
                },
                Err(e) => {
                    &&& lookup_spec(old(self).objects@, *cnode, index as int) == Err::<
                        Capability,
                        ErrKind,
                    >(e.e_kind)
                    &&& final(self).objects@ == old(self).objects@
                },
            },
    {
        let c = match self.lookup(cnode, index) {
            Ok(c) => c,
            Err(e) => {
                return Err(e);
            },
        };
        proof {
            assert(obj_wf(self.objects@, cnode.obj as int));
            assert(self.objects@[cnode.obj as int].slots@[index as int] == Some(c));
            assert(cap_ok(self.objects@, c));
        }
        if matches!(self.objects[c.obj].variant, CapabilityType::Untyped) {
            self.sweep(c.obj);
            let ghost mid = self.objects@;
            proof {
                assert(sweep_obj_done(old(self).objects@, mid, c.obj as int, cnode.obj as int));
                assert(sweep_obj_scalars(old(self).objects@, mid, c.obj as int, cnode.obj as int));
            }
            set_slot(&mut self.objects, cnode.obj, index, None);
            proof {
                lemma_set_slot_wf(mid, self.objects@, cnode.obj as int, index as int, None);
                lemma_delete_compose(
                    old(self).objects@,
                    mid,
                    self.objects@,
                    c.obj as int,
                    cnode.obj as int,
                    index as int,
                );
            }
        } else {
            let ghost mid = self.objects@;
            set_slot(&mut self.objects, cnode.obj, index, None);
            proof {
                lemma_set_slot_wf(mid, self.objects@, cnode.obj as int, index as int, None);
            }
        }
        Ok(())
    }

    /// `revoke(cnode, index)`: recursively deletes every capability that
    /// descends from the one stored there and returns the backing objects
    /// to its free pool, leaving the capability itself in place. Only
    /// Untyped capabilities have descendants; revoking any other variant
    /// succeeds without effect.
    pub fn revoke(&mut self, cnode: &Capability, index: usize) -> (r: KernelResult<()>)
        requires
            old(self).wf(),
        ensures
            final(self).wf(),
            match r {
                Ok(_) => {
                    &&& lookup_spec(old(self).objects@, *cnode, index as int) is Ok
                    &&& {
                        let c = lookup_spec(old(self).objects@, *cnode, index as int)->Ok_0;
                        if old(self).objects@[c.obj as int].variant == CapabilityType::Untyped {
                            sweep_post(old(self).objects@, final(self).objects@, c.obj as int)
                        } else {
                            final(self).objects@ == old(self).objects@
                        }
                    }
                },
                Err(e) => {
                    &&& lookup_spec(old(self).objects@, *cnode, index as int) == Err::<
                        Capability,
                        ErrKind,
                    >(e.e_kind)
                    &&& final(self).objects@ == old(self).objects@
                },
            },
    {
        let c = match self.lookup(cnode, index) {
            Ok(c) => c,
            Err(e) => {
                return Err(e);
            },
        };
        proof {
            assert(obj_wf(self.objects@, cnode.obj as int));
            assert(self.objects@[cnode.obj as int].slots@[index as int] == Some(c));
            assert(cap_ok(self.objects@, c));
        }
        if matches!(self.objects[c.obj].variant, CapabilityType::Untyped) {
            self.sweep(c.obj);
        }
        Ok(())
    }
}

/// Sets the liveness bit of object `o`.
fn set_live(objs: &mut Vec<Object>, o: usize, v: bool)
    requires
        o < old(objs).len(),
    ensures
        final(objs)@.len() == old(objs)@.len(),
        forall|k: int|
            0 <= k < old(objs)@.len() && k != o ==> obj_like(final(objs)@[k], old(objs)@[k]),
        final(objs)@[o as int].variant == old(objs)@[o as int].variant,
        final(objs)@[o as int].size == old(objs)@[o as int].size,
        final(objs)@[o as int].parent == old(objs)@[o as int].parent,
        final(objs)@[o as int].ut_used == old(objs)@[o as int].ut_used,
        final(objs)@[o as int].ut_device == old(objs)@[o as int].ut_device,
        final(objs)@[o as int].slots@ == old(objs)@[o as int].slots@,
        final(objs)@[o as int].live == v,
{
    let ob = &mut objs[o];
    ob.live = v;
}

/// A sweep below `u` followed by clearing slot (`cn`, `idx`) is exactly
/// what `delete` of an Untyped capability promises.
proof fn lemma_delete_compose(
    pre: Seq<Object>,
    mid: Seq<Object>,
    post: Seq<Object>,
    u: int,
    cn: int,
    idx: int,
)
    requires
        sweep_post(pre, mid, u),
        objs_with_slot(mid, post, cn, idx, None),
        0 <= cn < pre.len(),
        0 <= idx < pre[cn].slots@.len(),
    ensures
        delete_swept_post(pre, post, u, cn, idx),
{
    assert forall|k: int| 0 <= k < pre.len() implies delete_obj_done(pre, post, u, cn, idx, k) by {
        assert(sweep_obj_done(pre, mid, u, k));
        if k != cn {
            assert(obj_like(post[k], mid[k]));
        }
        assert forall|j: int| 0 <= j < pre[k].slots@.len() implies post[k].slots@[j] == (if k == cn
            && j == idx {
            None
        } else {
            sweep_slot(pre, u, k, j)
        }) by {
            assert(mid[k].slots@[j] == sweep_slot(pre, u, k, j));
        }
    }
    assert(post.len() == pre.len());
}

/// A completed sweep leaves the arena well-formed: survivors' remaining
/// capabilities name survivors, and the dead hold nothing.
proof fn lemma_sweep_wf(pre: Seq<Object>, post: Seq<Object>, u: int)
    requires
        objs_wf(pre),
        0 <= u < pre.len(),
        sweep_post(pre, post, u),
    ensures
        objs_wf(post),
{
    assert forall|i: int| 0 <= i < post.len() implies obj_wf(post, i) by {
        assert(obj_wf(pre, i));
        assert(sweep_obj_done(pre, post, u, i));
        assert(sweep_obj_scalars(pre, post, u, i));
        match pre[i].parent {
            Some(p) => {
                assert(sweep_obj_done(pre, post, u, p as int));
                assert(sweep_obj_scalars(pre, post, u, p as int));
            },
            None => {},
        }
        assert forall|j: int|
            0 <= j < post[i].slots@.len() && post[i].slots@[j] is Some implies cap_ok(
            post,
            post[i].slots@[j]->0,
        ) by {
            assert(post[i].slots@[j] == sweep_slot(pre, u, i, j));
            let c = post[i].slots@[j]->0;
            assert(pre[i].slots@[j] == Some(c));
            assert(cap_ok(pre, c));
            assert(sweep_obj_done(pre, post, u, c.obj as int));
            assert(sweep_obj_scalars(pre, post, u, c.obj as int));
        }
        assert forall|j: int|
            !post[i].live && 0 <= j < post[i].slots@.len() implies post[i].slots@[j] is None by {
            assert(post[i].slots@[j] == sweep_slot(pre, u, i, j));
            if pre[i].live && !is_desc(pre, u, i) {
                assert(post[i].live);
            }
        }
    }
}

/// Number of capabilities a slot holds.
pub open spec fn caps_in_slot(s: Option<Capability>) -> nat {
    match s {
        Some(_) => 1,
        None => 0,
    }
}

/// Slot exclusivity: in every observable state, under any sequence of
/// `copy`, `delete` and `retype` calls, a slot holds zero or one
/// capability — never more. A slot is an `Option<Capability>` and every
/// operation's contract writes whole slot values, so the bound holds of
/// any arena at all, not just well-formed ones.
pub proof fn lemma_slot_exclusivity(objs: Seq<Object>, o: int, j: int)
    requires
        0 <= o < objs.len(),
        0 <= j < objs[o].slots@.len(),
    ensures
        caps_in_slot(objs[o].slots@[j]) <= 1,
{
}

/// Revocation completeness: after revoking an Untyped capability — a
/// sweep below its object `u` — every capability `d` that named a proper
/// descendant of `u` is gone: `lookup` on `d`'s former address fails
/// `SlotIsEmpty` (provided the addressing CNode itself survived the
/// sweep; a reclaimed CNode fails earlier, with `UnknownCapType`), and
/// the backing region is whole again in `u`'s free pool.
pub proof fn lemma_revocation_completeness(
    pre: Seq<Object>,
    post: Seq<Object>,
    u: int,
    cn: Capability,
    idx: int,
    d: Capability,
)
    requires
        objs_wf(pre),
        0 <= u < pre.len(),
        sweep_post(pre, post, u),
        cap_ok(pre, cn),
        pre[cn.obj as int].variant == CapabilityType::CNode,
        0 <= idx < pre[cn.obj as int].slots@.len(),
        pre[cn.obj as int].slots@[idx] == Some(d),
        is_desc(pre, u, d.obj as int),
        post[cn.obj as int].live,
    ensures
        lookup_spec(post, cn, idx) == Err::<Capability, ErrKind>(ErrKind::SlotIsEmpty),
        post[u].ut_used == 0,
{
    assert(sweep_obj_done(pre, post, u, cn.obj as int));
    assert(sweep_obj_scalars(pre, post, u, cn.obj as int));
    assert(post[cn.obj as int].slots@[idx] == sweep_slot(pre, u, cn.obj as int, idx));
    assert(sweep_obj_done(pre, post, u, u));
    assert(sweep_obj_scalars(pre, post, u, u));
}

/// Capacity boundary: retyping a fresh Untyped of size `S` into objects
/// of size `K` succeeds for exactly `S / K` of them. With usable
/// destination slots (in range, empty, pairwise distinct), a request for
/// up to `S / K` objects is error-free, and any request for more — in
/// particular `S / K + 1` — fails `OutOfMemory`.
pub proof fn lemma_retype_capacity(
    objs: Seq<Object>,
    untyped: Capability,
    target: CapabilityType,
    obj_size: int,
    dest_cnode: Capability,
    dests: Seq<usize>,
)
    requires
        obj_size > 0,
        cap_ok(objs, untyped),
        objs[untyped.obj as int].variant == CapabilityType::Untyped,
        objs[untyped.obj as int].ut_used == 0,
        !(objs[untyped.obj as int].ut_device && needs_zeroing(target)),
        cap_ok(objs, dest_cnode),
        objs[dest_cnode.obj as int].variant == CapabilityType::CNode,
        dests_in_range(objs, dest_cnode.obj as int, dests),
        !dests_not_empty(objs, dest_cnode.obj as int, dests),
    ensures
        retype_err(objs, untyped, target, obj_size, dest_cnode, dests) is None <==> dests.len()
            <= objs[untyped.obj as int].size as int / obj_size,
        dests.len() > objs[untyped.obj as int].size as int / obj_size ==> retype_err(
            objs,
            untyped,
            target,
            obj_size,
            dest_cnode,
            dests,
        ) == Some(ErrKind::OutOfMemory),
{
    lemma_le_div_iff(dests.len() as int, objs[untyped.obj as int].size as int, obj_size);
}

/// A vector of `n` empty capability slots.
fn empty_slots(n: usize) -> (r: Vec<Option<Capability>>)
    ensures
        r@.len() == n,
        forall|j: int| 0 <= j < n ==> r@[j] is None,
{
    let mut v: Vec<Option<Capability>> = Vec::new();
    let mut i: usize = 0;
    while i < n
        invariant
            i <= n,
            v@.len() == i,
            forall|j: int| 0 <= j < i ==> v@[j] is None,
        decreases n - i,
    {
        v.push(None);
        i += 1;
    }
    v
}

} // verus!
