//! The address-space manager: a two-level page table per task, walked
//! from a root table of `ENTRIES` entries down to leaf tables whose
//! entries map one virtual page each to a Page object with a permission
//! set.
//!
//! Policy, fixed here (the error taxonomy admits two defensible
//! choices): the kernel never allocates intermediate tables implicitly.
//! A leaf table is installed only by an explicit `map_table` call with a
//! retyped PageTable object; `map_page` with a missing intermediate
//! fails `PageTableNotMappedYet`.
//!
//! There is no TLB model: an unmapped entry is gone the moment `unmap`
//! returns, so no stale translation is ever visible.

use vstd::prelude::*;

use crate::capability::CapRights;
use crate::common::{ErrKind, KernelError, KernelResult};

verus! {

pub const PAGE_SIZE: usize = 4096;

pub const ENTRIES: usize = 512;

/// Exclusive top of the user address range this table shape can cover.
pub const USER_TOP: usize = 512 * 512 * 4096;

/// A leaf entry: the mapped Page object and the granted permissions.
#[derive(Debug, Clone, Copy, PartialEq, Eq, Structural)]
pub struct PageMapping {
    pub page: usize,
    pub rights: CapRights,
}

/// A leaf table, backed by the PageTable object that was mapped here.
pub struct LeafTable {
    pub table_obj: usize,
    pub entries: Vec<Option<PageMapping>>,
}

/// One task's address space: the root table, backed by `root_obj`.
pub struct AddrSpace {
    pub root_obj: usize,
    pub root: Vec<Option<LeafTable>>,
}

/// A legal user-space address for mapping: page-aligned and below the
/// covered range.
pub open spec fn user_addr(va: usize) -> bool {
    va < USER_TOP && va as int % (PAGE_SIZE as int) == 0
}

/// Root-table index of `va`.
pub open spec fn l1_of(va: usize) -> int {
    va as int / ((PAGE_SIZE * ENTRIES) as int)
}

/// Leaf-table index of `va`.
pub open spec fn l2_of(va: usize) -> int {
    (va as int / (PAGE_SIZE as int)) % (ENTRIES as int)
}

/// The leaf entry reached by walking `va`'s indices, `None` where the
/// walk falls off an absent table.
pub open spec fn entry_at(s: AddrSpace, i: int, j: int) -> Option<PageMapping> {
    if 0 <= i < s.root@.len() {
        match s.root@[i] {
            Some(lt) => {
                if 0 <= j < lt.entries@.len() {
                    lt.entries@[j]
                } else {
                    None
                }
            },
            None => None,
        }
    } else {
        None
    }
}

/// The translation the table defines for `va`.
pub open spec fn translate(s: AddrSpace, va: usize) -> Option<PageMapping> {
    if user_addr(va) {
        entry_at(s, l1_of(va), l2_of(va))
    } else {
        None
    }
}

/// Page object `p` is mapped somewhere in this address space.
pub open spec fn page_mapped(s: AddrSpace, p: usize) -> bool {
    exists|i: int, j: int|
        (#[trigger] entry_at(s, i, j)) matches Some(m) && m.page == p
}

impl AddrSpace {
    /// Shape and aliasing invariant: full-size tables, each PageTable
    /// object backing at most one leaf table, and each Page object
    /// mapped through at most one leaf entry.
    pub open spec fn wf(self) -> bool {
        &&& self.root@.len() == ENTRIES
        &&& forall|i: int|
            0 <= i < self.root@.len() && self.root@[i] is Some ==> (#[trigger] self.root@[i])->0.entries@.len()
                == ENTRIES
        &&& forall|i1: int, i2: int|
            0 <= i1 < i2 < self.root@.len() && self.root@[i1] is Some && self.root@[i2] is Some
                ==> (#[trigger] self.root@[i1])->0.table_obj != (#[trigger] self.root@[i2])->0.table_obj
        &&& forall|i1: int, j1: int, i2: int, j2: int|
            (#[trigger] entry_at(self, i1, j1)) is Some && (#[trigger] entry_at(self, i2, j2))
                is Some && (i1 != i2 || j1 != j2) ==> entry_at(self, i1, j1)->0.page != entry_at(
                self,
                i2,
                j2,
            )->0.page
    }

    /// An empty address space rooted at PageTable object `root_obj`.
    pub fn new(root_obj: usize) -> (r: AddrSpace)
        ensures
            r.wf(),
            r.root_obj == root_obj,
            forall|i: int, j: int| entry_at(r, i, j) is None,
            forall|va: usize| translate(r, va) is None,
    {
        let mut root: Vec<Option<LeafTable>> = Vec::new();
        let mut i: usize = 0;
        while i < ENTRIES
            invariant
                i <= ENTRIES,
                root@.len() == i,
                forall|k: int| 0 <= k < i ==> root@[k] is None,
            decreases ENTRIES - i,
        {
            root.push(None);
            i += 1;
        }
        let r = AddrSpace { root_obj, root };
        proof {
            assert forall|i2: int, j2: int| entry_at(r, i2, j2) is None by {}
        }
        r
    }
}

/// PageTable object `t` already backs some leaf table of `s`.
pub open spec fn table_used(s: AddrSpace, t: usize) -> bool {
    exists|i: int|
        0 <= i < s.root@.len() && (#[trigger] s.root@[i]) is Some && s.root@[i]->0.table_obj == t
}

/// The exact error `map_table` reports, or `None` when it must succeed.
pub open spec fn map_table_err(s: AddrSpace, table_obj: usize, va: usize) -> Option<ErrKind> {
    if !(va < USER_TOP) {
        Some(ErrKind::InvalidUserAddress)
    } else if s.root@[l1_of(va)] is Some {
        Some(ErrKind::PageTableAlreadyMapped)
    } else if table_obj == s.root_obj || table_used(s, table_obj) {
        Some(ErrKind::PageTableAlreadyMapped)
    } else {
        None
    }
}

/// A successful `map_table`: a fresh, empty leaf table backed by
/// `table_obj` appears at `va`'s root index; nothing else moves.
pub open spec fn map_table_post(pre: AddrSpace, post: AddrSpace, table_obj: usize, va: usize) -> bool {
    &&& post.root_obj == pre.root_obj
    &&& post.root@.len() == pre.root@.len()
    &&& forall|i: int| 0 <= i < pre.root@.len() && i != l1_of(va) ==> post.root@[i] == pre.root@[i]
    &&& post.root@[l1_of(va)] is Some
    &&& post.root@[l1_of(va)]->0.table_obj == table_obj
    &&& post.root@[l1_of(va)]->0.entries@.len() == ENTRIES
    &&& forall|j: int| 0 <= j < ENTRIES ==> post.root@[l1_of(va)]->0.entries@[j] is None
}

/// The exact error `map_page` reports, or `None` when it must succeed.
/// A malformed address, a missing intermediate table, an occupied
/// virtual address and an already-mapped page are told apart, in that
/// order.
pub open spec fn map_page_err(s: AddrSpace, p: usize, va: usize) -> Option<ErrKind> {
    if !user_addr(va) {
        Some(ErrKind::InvalidUserAddress)
    } else if s.root@[l1_of(va)] is None {
        Some(ErrKind::PageTableNotMappedYet)
    } else if entry_at(s, l1_of(va), l2_of(va)) is Some {
        Some(ErrKind::VaddressAlreadyMapped)
    } else if page_mapped(s, p) {
        Some(ErrKind::PageAlreadyMapped)
    } else {
        None
    }
}

/// One leaf entry of `pre` rewritten to `v`, everything else equal.
pub open spec fn entry_set_post(
    pre: AddrSpace,
    post: AddrSpace,
    va: usize,
    v: Option<PageMapping>,
) -> bool {
    &&& post.root_obj == pre.root_obj
    &&& post.root@.len() == pre.root@.len()
    &&& forall|i: int| 0 <= i < pre.root@.len() && i != l1_of(va) ==> post.root@[i] == pre.root@[i]
    &&& pre.root@[l1_of(va)] is Some
    &&& post.root@[l1_of(va)] is Some
    &&& post.root@[l1_of(va)]->0.table_obj == pre.root@[l1_of(va)]->0.table_obj
    &&& post.root@[l1_of(va)]->0.entries@ == pre.root@[l1_of(va)]->0.entries@.update(l2_of(va), v)
}

/// The exact error `unmap` reports, or `None` when it must succeed.
pub open spec fn unmap_err(s: AddrSpace, va: usize) -> Option<ErrKind> {
    if !user_addr(va) {
        Some(ErrKind::InvalidUserAddress)
    } else if s.root@[l1_of(va)] is None {
        Some(ErrKind::PteNotFound)
    } else if entry_at(s, l1_of(va), l2_of(va)) is None {
        Some(ErrKind::PteNotFound)
    } else {
        None
    }
}

/// Rewriting one leaf entry whose new page (if any) was unmapped before
/// keeps the address space well-formed, and moves exactly that entry.
proof fn lemma_entry_set_wf(pre: AddrSpace, post: AddrSpace, va: usize, v: Option<PageMapping>)
    requires
        pre.wf(),
        user_addr(va),
        entry_set_post(pre, post, va, v),
        pre.root@[l1_of(va)]->0.entries@.len() == ENTRIES,
        match v {
            Some(m) => !page_mapped(pre, m.page),
            None => true,
        },
    ensures
        post.wf(),
        forall|a: int, b: int|
            #![trigger entry_at(post, a, b)]
            entry_at(post, a, b) == (if a == l1_of(va) && b == l2_of(va) {
                v
            } else {
                entry_at(pre, a, b)
            }),
{
    lemma_index_bounds(va);
    let i1 = l1_of(va);
    let j1 = l2_of(va);
    assert forall|a: int, b: int|
        #![trigger entry_at(post, a, b)]
        entry_at(post, a, b) == (if a == i1 && b == j1 {
            v
        } else {
            entry_at(pre, a, b)
        }) by {
        if 0 <= a < post.root@.len() && a != i1 {
            assert(post.root@[a] == pre.root@[a]);
        }
    }
    assert forall|a1: int, b1: int, a2: int, b2: int|
        (#[trigger] entry_at(post, a1, b1)) is Some && (#[trigger] entry_at(post, a2, b2)) is Some
            && (a1 != a2 || b1 != b2) implies entry_at(post, a1, b1)->0.page != entry_at(
        post,
        a2,
        b2,
    )->0.page by {
        if (a1 == i1 && b1 == j1) || (a2 == i1 && b2 == j1) {
            match v {
                Some(m) => {
                    if a1 == i1 && b1 == j1 {
                        if entry_at(pre, a2, b2)->0.page == m.page {
                            assert(page_mapped(pre, m.page));
                        }
                    } else {
                        if entry_at(pre, a1, b1)->0.page == m.page {
                            assert(page_mapped(pre, m.page));
                        }
                    }
                },
                None => {},
            }
        } else {
            assert(entry_at(pre, a1, b1) is Some && entry_at(pre, a2, b2) is Some);
        }
    }
}

impl AddrSpace {
    /// Installs the PageTable object `table_obj` as the leaf table
    /// covering `vaddr`'s region. The kernel never does this implicitly:
    /// the caller supplies the retyped object. Fails
    /// `PageTableAlreadyMapped` when that level is already populated or
    /// the object already backs a table, `InvalidUserAddress` for an
    /// address beyond the covered range.
    #[verifier::loop_isolation(false)]
    pub fn map_table(&mut self, table_obj: usize, vaddr: usize) -> (r: KernelResult<()>)
        requires
            old(self).wf(),
        ensures
            final(self).wf(),
            match r {
                Ok(_) => {
                    &&& map_table_err(*old(self), table_obj, vaddr) is None
                    &&& map_table_post(*old(self), *final(self), table_obj, vaddr)
                },
                Err(e) => {
                    &&& map_table_err(*old(self), table_obj, vaddr) == Some(e.e_kind)
                    &&& *final(self) == *old(self)
                },
            },
    {
        if vaddr >= USER_TOP {
            return Err(KernelError::new(ErrKind::InvalidUserAddress));
        }
        proof {
            lemma_index_bounds(vaddr);
        }
        let i1 = vaddr / (PAGE_SIZE * ENTRIES);
        if self.root[i1].is_some() {
            return Err(KernelError::new(ErrKind::PageTableAlreadyMapped));
        }
        if table_obj == self.root_obj {
            return Err(KernelError::new(ErrKind::PageTableAlreadyMapped));
        }
        let mut i: usize = 0;
        while i < ENTRIES
            invariant
                i <= ENTRIES,
                *self == *old(self),
                forall|k: int|
                    0 <= k < i ==> !((#[trigger] self.root@[k]) is Some && self.root@[k]->0.table_obj
                        == table_obj),
            decreases ENTRIES - i,
        {
            match &self.root[i] {
                Some(lt) => {
                    if lt.table_obj == table_obj {
                        return Err(KernelError::new(ErrKind::PageTableAlreadyMapped));
                    }
                },
                None => {},
            }
            i += 1;
        }
        let entries = none_entries();
        self.root.set(i1, Some(LeafTable { table_obj, entries }));
        proof {
            let pre = *old(self);
            let post = *self;
            assert forall|a: int, b: int|
                #![trigger entry_at(post, a, b)]
                entry_at(post, a, b) == entry_at(pre, a, b) by {
                if 0 <= a < post.root@.len() && a != i1 {
                    assert(post.root@[a] == pre.root@[a]);
                }
            }
            assert forall|a1: int, b1: int, a2: int, b2: int|
                (#[trigger] entry_at(post, a1, b1)) is Some && (#[trigger] entry_at(post, a2, b2))
                    is Some && (a1 != a2 || b1 != b2) implies entry_at(post, a1, b1)->0.page
                != entry_at(post, a2, b2)->0.page by {
                assert(entry_at(pre, a1, b1) is Some && entry_at(pre, a2, b2) is Some);
            }
        }
        Ok(())
    }

    /// Maps Page object `page_obj` at `vaddr` with `rights`. Fails
    /// `InvalidUserAddress` for an unaligned or out-of-range address,
    /// `PageTableNotMappedYet` when the caller has not installed the
    /// intermediate table, `VaddressAlreadyMapped` when the address
    /// already translates (a duplicate mapping request), and
    /// `PageAlreadyMapped` when the page object is already mapped at
    /// some other address (which would alias it).
    pub fn map_page(&mut self, page_obj: usize, vaddr: usize, rights: CapRights) -> (r:
        KernelResult<()>)
        requires
            old(self).wf(),
        ensures
            final(self).wf(),
            match r {
                Ok(_) => {
                    &&& map_page_err(*old(self), page_obj, vaddr) is None
                    &&& entry_set_post(
                        *old(self),
                        *final(self),
                        vaddr,
                        Some(PageMapping { page: page_obj, rights }),
                    )
                },
                Err(e) => {
                    &&& map_page_err(*old(self), page_obj, vaddr) == Some(e.e_kind)
                    &&& *final(self) == *old(self)
                },
            },
    {
        if vaddr >= USER_TOP || vaddr % PAGE_SIZE != 0 {
            return Err(KernelError::new(ErrKind::InvalidUserAddress));
        }
        proof {
            lemma_index_bounds(vaddr);
        }
        let i1 = vaddr / (PAGE_SIZE * ENTRIES);
        let i2 = (vaddr / PAGE_SIZE) % ENTRIES;
        match &self.root[i1] {
            None => {
                return Err(KernelError::new(ErrKind::PageTableNotMappedYet));
            },
            Some(lt) => {
                if lt.entries[i2].is_some() {
                    return Err(KernelError::new(ErrKind::VaddressAlreadyMapped));
                }
            },
        }
        if self.page_is_mapped(page_obj) {
            return Err(KernelError::new(ErrKind::PageAlreadyMapped));
        }
        let m = PageMapping { page: page_obj, rights };
        set_entry(&mut self.root, i1, i2, Some(m));
        proof {
            lemma_entry_set_wf(*old(self), *self, vaddr, Some(m));
        }
        Ok(())
    }

    /// Removes the mapping at `vaddr`. Fails `PteNotFound` when the walk
    /// finds no entry at any level, `InvalidUserAddress` for a malformed
    /// address. The translation is gone the moment this returns.
    pub fn unmap(&mut self, vaddr: usize) -> (r: KernelResult<()>)
        requires
            old(self).wf(),
        ensures
            final(self).wf(),
            match r {
                Ok(_) => {
                    &&& unmap_err(*old(self), vaddr) is None
                    &&& entry_set_post(*old(self), *final(self), vaddr, None)
                },
                Err(e) => {
                    &&& unmap_err(*old(self), vaddr) == Some(e.e_kind)
                    &&& *final(self) == *old(self)
                },
            },
    {
        if vaddr >= USER_TOP || vaddr % PAGE_SIZE != 0 {
            return Err(KernelError::new(ErrKind::InvalidUserAddress));
        }
        proof {
            lemma_index_bounds(vaddr);
        }
        let i1 = vaddr / (PAGE_SIZE * ENTRIES);
        let i2 = (vaddr / PAGE_SIZE) % ENTRIES;
        match &self.root[i1] {
            None => {
                return Err(KernelError::new(ErrKind::PteNotFound));
            },
            Some(lt) => {
                if lt.entries[i2].is_none() {
                    return Err(KernelError::new(ErrKind::PteNotFound));
                }
            },
        }
        set_entry(&mut self.root, i1, i2, None);
        proof {
            lemma_entry_set_wf(*old(self), *self, vaddr, None);
        }
        Ok(())
    }

    /// Whether Page object `p` is mapped through any leaf entry.
    #[verifier::loop_isolation(false)]
    pub fn page_is_mapped(&self, p: usize) -> (r: bool)
        requires
            self.wf(),
        ensures
            r == page_mapped(*self, p),
    {
        let mut i: usize = 0;
        while i < ENTRIES
            invariant
                i <= ENTRIES,
                forall|a: int, b: int|
                    a < i ==> !((#[trigger] entry_at(*self, a, b)) matches Some(m) && m.page == p),
            decreases ENTRIES - i,
        {
            match &self.root[i] {
                Some(lt) => {
                    let mut j: usize = 0;
                    while j < ENTRIES
                        invariant
                            j <= ENTRIES,
                            self.root@[i as int] is Some,
                            forall|a: int, b: int|
                                a < i ==> !((#[trigger] entry_at(*self, a, b)) matches Some(m)
                                    && m.page == p),
                            forall|b: int|
                                b < j ==> !((#[trigger] entry_at(*self, i as int, b)) matches Some(
                                m,
                                ) && m.page == p),
                        decreases ENTRIES - j,
                    {
                        match &self.root[i].as_ref().unwrap().entries[j] {
                            Some(m) => {
                                if m.page == p {
                                    proof {
                                        assert(entry_at(*self, i as int, j as int) matches Some(mm)
                                            && mm.page == p);
                                    }
                                    return true;
                                }
                            },
                            None => {},
                        }
                        j += 1;
                    }
                },
                None => {},
            }
            i += 1;
        }
        proof {
            assert forall|a: int, b: int|
                !((#[trigger] entry_at(*self, a, b)) matches Some(m) && m.page == p) by {}
        }
        false
    }
}

/// Rewrites leaf entry (`i`, `j`); the leaf table must be present.
fn set_entry(root: &mut Vec<Option<LeafTable>>, i: usize, j: usize, v: Option<PageMapping>)
    requires
        i < old(root).len(),
        old(root)@[i as int] is Some,
        j < old(root)@[i as int]->0.entries@.len(),
    ensures
        final(root)@.len() == old(root)@.len(),
        forall|k: int| 0 <= k < old(root)@.len() && k != i ==> final(root)@[k] == old(root)@[k],
        final(root)@[i as int] is Some,
        final(root)@[i as int]->0.table_obj == old(root)@[i as int]->0.table_obj,
        final(root)@[i as int]->0.entries@ == old(root)@[i as int]->0.entries@.update(j as int, v),
{
    let slot = &mut root[i];
    match slot {
        Some(lt) => {
            lt.entries.set(j, v);
        },
        None => {},
    }
}

/// A full leaf table's worth of empty entries.
fn none_entries() -> (r: Vec<Option<PageMapping>>)
    ensures
        r@.len() == ENTRIES,
        forall|j: int| 0 <= j < ENTRIES ==> r@[j] is None,
{
    let mut v: Vec<Option<PageMapping>> = Vec::new();
    let mut i: usize = 0;
    while i < ENTRIES
        invariant
            i <= ENTRIES,
            v@.len() == i,
            forall|j: int| 0 <= j < i ==> v@[j] is None,
        decreases ENTRIES - i,
    {
        v.push(None);
        i += 1;
    }
    v
}

/// Mapping round-trip: when `map(p, va, r)` is owed success, it installs
/// exactly that translation; a second `map` at `va` with no `unmap`
/// between fails `VaddressAlreadyMapped`; the `unmap` is owed success
/// and leaves no residual state at `va`; and `map(p, va, r)` is then
/// owed success again.
pub proof fn lemma_map_roundtrip(
    s0: AddrSpace,
    s1: AddrSpace,
    s2: AddrSpace,
    page_obj: usize,
    vaddr: usize,
    rights: CapRights,
)
    requires
        s0.wf(),
        map_page_err(s0, page_obj, vaddr) is None,
        entry_set_post(s0, s1, vaddr, Some(PageMapping { page: page_obj, rights })),
        entry_set_post(s1, s2, vaddr, None),
    ensures
        translate(s1, vaddr) == Some(PageMapping { page: page_obj, rights }),
        map_page_err(s1, page_obj, vaddr) == Some(ErrKind::VaddressAlreadyMapped),
        unmap_err(s1, vaddr) is None,
        translate(s2, vaddr) is None,
        map_page_err(s2, page_obj, vaddr) is None,
{
    lemma_index_bounds(vaddr);
    let m = PageMapping { page: page_obj, rights };
    lemma_entry_set_wf(s0, s1, vaddr, Some(m));
    lemma_entry_set_wf(s1, s2, vaddr, None);
    assert(entry_at(s1, l1_of(vaddr), l2_of(vaddr)) == Some(m));
    assert(entry_at(s2, l1_of(vaddr), l2_of(vaddr)) is None);
    if page_mapped(s2, page_obj) {
        let (a, b) = choose|a: int, b: int|
            (#[trigger] entry_at(s2, a, b)) matches Some(mm) && mm.page == page_obj;
        assert(entry_at(s2, a, b) == (if a == l1_of(vaddr) && b == l2_of(vaddr) {
            None
        } else {
            entry_at(s1, a, b)
        }));
        assert(entry_at(s1, a, b) == (if a == l1_of(vaddr) && b == l2_of(vaddr) {
            Some(m)
        } else {
            entry_at(s0, a, b)
        }));
        assert(page_mapped(s0, page_obj));
    }
}

/// The root- and leaf-table indices of `va` are in range.
pub proof fn lemma_index_bounds(va: usize)
    requires
        va < USER_TOP,
    ensures
        0 <= l1_of(va) < ENTRIES,
        0 <= l2_of(va) < ENTRIES,
{
    let step = (PAGE_SIZE * ENTRIES) as int;
    vstd::arithmetic::div_mod::lemma_div_pos_is_pos(va as int, step);
    assert(va as int / step < ENTRIES) by (nonlinear_arith)
        requires
            0 <= va as int,
            va < USER_TOP,
            USER_TOP == 512 * 512 * 4096,
            step == 4096 * 512,
    {
        let q = va as int / step;
        vstd::arithmetic::div_mod::lemma_fundamental_div_mod(va as int, step);
        vstd::arithmetic::div_mod::lemma_mod_division_less_than_divisor(va as int, step);
    }
    vstd::arithmetic::div_mod::lemma_mod_division_less_than_divisor(
        va as int / (PAGE_SIZE as int),
        ENTRIES as int,
    );
    vstd::arithmetic::div_mod::lemma_div_pos_is_pos(va as int, PAGE_SIZE as int);
}

} // verus!
