use kernel::capability::{CapRights, CapabilityType};
use kernel::common::ErrKind;
use kernel::cspace::CapSpace;

fn fresh_space() -> (CapSpace, kernel::capability::Capability, kernel::capability::Capability) {
    let mut cs = CapSpace::new();
    let root = cs.boot_cnode(16);
    let ut = cs.boot_untyped(4096, false);
    (cs, root, ut)
}

#[test]
fn retype_four_tcbs_then_out_of_memory_then_no_enough_slot() {
    // An Untyped of 4096 bytes turns into 4 TaskControlBlocks of 1024
    // bytes in slots 0..=3 of a 16-slot CNode; the fifth request fails
    // OutOfMemory; a fresh Untyped with destination index 16 fails
    // NoEnoughSlot.
    let (mut cs, root, ut) = fresh_space();
    for slot in 0..4usize {
        let r = cs.retype(
            &ut,
            CapabilityType::TaskControlBlock,
            1024,
            &root,
            &vec![slot],
        );
        assert!(r.is_ok());
        assert!(cs.lookup(&root, slot).is_ok());
    }
    let fifth = cs.retype(&ut, CapabilityType::TaskControlBlock, 1024, &root, &vec![4]);
    assert_eq!(fifth.unwrap_err().e_kind, ErrKind::OutOfMemory);

    let ut2 = cs.boot_untyped(4096, false);
    let bad = cs.retype(
        &ut2,
        CapabilityType::TaskControlBlock,
        1024,
        &root,
        &vec![16],
    );
    assert_eq!(bad.unwrap_err().e_kind, ErrKind::NoEnoughSlot);
}

#[test]
fn retype_capacity_is_exactly_floor() {
    // floor(4096 / 512) = 8 objects fit; a batch of 9 does not.
    let (mut cs, root, ut) = fresh_space();
    let dests: Vec<usize> = (0..8).collect();
    assert!(cs
        .retype(&ut, CapabilityType::Endpoint, 512, &root, &dests)
        .is_ok());
    let ut2 = cs.boot_untyped(4096, false);
    let nine: Vec<usize> = (8..17).collect();
    let r = cs.retype(&ut2, CapabilityType::Endpoint, 512, &root, &nine);
    assert_eq!(r.unwrap_err().e_kind, ErrKind::OutOfMemory);
}

#[test]
fn retype_into_occupied_slot_fails_not_empty_slot() {
    let (mut cs, root, ut) = fresh_space();
    assert!(cs
        .retype(&ut, CapabilityType::Endpoint, 512, &root, &vec![3])
        .is_ok());
    let r = cs.retype(&ut, CapabilityType::Endpoint, 512, &root, &vec![3]);
    assert_eq!(r.unwrap_err().e_kind, ErrKind::NotEmptySlot);
    // A duplicated destination would be occupied by the time it is
    // written, so it is refused the same way.
    let r = cs.retype(&ut, CapabilityType::Endpoint, 512, &root, &vec![5, 5]);
    assert_eq!(r.unwrap_err().e_kind, ErrKind::NotEmptySlot);
}

#[test]
fn device_memory_rejects_kernel_objects() {
    let mut cs = CapSpace::new();
    let root = cs.boot_cnode(16);
    let dev = cs.boot_untyped(8192, true);
    let r = cs.retype(&dev, CapabilityType::TaskControlBlock, 1024, &root, &vec![0]);
    assert_eq!(r.unwrap_err().e_kind, ErrKind::CanNotNewFromDeviceMemory);
    // Frames and further Untypeds carry no zero-initialisation promise.
    assert!(cs
        .retype(&dev, CapabilityType::Page, 4096, &root, &vec![0])
        .is_ok());
    assert!(cs
        .retype(&dev, CapabilityType::Untyped, 4096, &root, &vec![1])
        .is_ok());
}

#[test]
fn lookup_errors_are_told_apart() {
    let (cs, root, ut) = fresh_space();
    assert_eq!(
        cs.lookup(&root, 0).unwrap_err().e_kind,
        ErrKind::SlotIsEmpty
    );
    assert_eq!(
        cs.lookup(&root, 99).unwrap_err().e_kind,
        ErrKind::InvalidOperation
    );
    assert_eq!(
        cs.lookup(&ut, 0).unwrap_err().e_kind,
        ErrKind::UnexpectedCapType
    );
    let mut stale = root;
    stale.obj = 77;
    assert_eq!(
        cs.lookup(&stale, 0).unwrap_err().e_kind,
        ErrKind::UnknownCapType
    );
}

#[test]
fn copy_narrows_rights_and_keeps_the_badge() {
    let (mut cs, root, ut) = fresh_space();
    assert!(cs
        .retype(&ut, CapabilityType::Endpoint, 512, &root, &vec![0])
        .is_ok());
    let ro = CapRights {
        read: true,
        write: false,
        grant: false,
    };
    assert!(cs.copy(&root, 0, 1, ro).is_ok());
    let copied = cs.lookup(&root, 1).unwrap();
    let original = cs.lookup(&root, 0).unwrap();
    assert_eq!(copied.obj, original.obj);
    assert_eq!(copied.badge, original.badge);
    assert_eq!(copied.rights, ro);
}

#[test]
fn copy_error_cases() {
    let (mut cs, root, ut) = fresh_space();
    assert!(cs
        .retype(&ut, CapabilityType::Endpoint, 512, &root, &vec![0])
        .is_ok());
    assert!(cs
        .retype(&ut, CapabilityType::Page, 512, &root, &vec![2])
        .is_ok());
    // Source empty.
    let full = CapRights::full();
    assert_eq!(
        cs.copy(&root, 5, 6, full).unwrap_err().e_kind,
        ErrKind::SlotIsEmpty
    );
    // Destination occupied.
    assert!(cs.copy(&root, 0, 1, full).is_ok());
    assert_eq!(
        cs.copy(&root, 0, 1, full).unwrap_err().e_kind,
        ErrKind::NotEmptySlot
    );
    // Rights may only shrink.
    let ro = CapRights {
        read: true,
        write: false,
        grant: false,
    };
    assert!(cs.copy(&root, 0, 3, ro).is_ok());
    assert_eq!(
        cs.copy(&root, 3, 4, full).unwrap_err().e_kind,
        ErrKind::InvalidOperation
    );
    // Page capabilities refuse derivation.
    assert_eq!(
        cs.copy(&root, 2, 4, full).unwrap_err().e_kind,
        ErrKind::CanNotDerivable
    );
}

#[test]
fn revoke_clears_descendants_and_returns_the_free_pool() {
    let (mut cs, root, ut) = fresh_space();
    // Keep the Untyped capability itself in a slot so it can be revoked.
    // Boot capabilities live outside slots, so retype a child Untyped
    // first and work below that.
    assert!(cs
        .retype(&ut, CapabilityType::Untyped, 2048, &root, &vec![0])
        .is_ok());
    let child_ut = cs.lookup(&root, 0).unwrap();
    assert!(cs
        .retype(&child_ut, CapabilityType::Endpoint, 512, &root, &vec![1, 2])
        .is_ok());
    let d1 = cs.lookup(&root, 1).unwrap();
    assert!(cs.lookup(&root, 2).is_ok());

    assert!(cs.revoke(&root, 0).is_ok());

    // The revoked capability itself survives; every descendant is gone
    // and its former slot reads empty.
    assert!(cs.lookup(&root, 0).is_ok());
    assert_eq!(
        cs.lookup(&root, 1).unwrap_err().e_kind,
        ErrKind::SlotIsEmpty
    );
    assert_eq!(
        cs.lookup(&root, 2).unwrap_err().e_kind,
        ErrKind::SlotIsEmpty
    );
    // The whole region is allocatable again: 4 endpoints of 512 bytes
    // fit into the 2048-byte child exactly as at first use.
    assert!(cs
        .retype(&child_ut, CapabilityType::Endpoint, 512, &root, &vec![1, 2, 3, 4])
        .is_ok());
    // A stale capability to a revoked object no longer resolves.
    let mut stale_addr = root;
    stale_addr.obj = d1.obj;
    assert_eq!(
        cs.lookup(&stale_addr, 0).unwrap_err().e_kind,
        ErrKind::UnknownCapType
    );
}

#[test]
fn delete_reclaims_an_untyped_subtree_first() {
    let (mut cs, root, ut) = fresh_space();
    assert!(cs
        .retype(&ut, CapabilityType::Untyped, 2048, &root, &vec![0])
        .is_ok());
    let child_ut = cs.lookup(&root, 0).unwrap();
    assert!(cs
        .retype(&child_ut, CapabilityType::Endpoint, 512, &root, &vec![1])
        .is_ok());
    assert!(cs.delete(&root, 0).is_ok());
    // Both the Untyped capability and its descendant are gone.
    assert_eq!(
        cs.lookup(&root, 0).unwrap_err().e_kind,
        ErrKind::SlotIsEmpty
    );
    assert_eq!(
        cs.lookup(&root, 1).unwrap_err().e_kind,
        ErrKind::SlotIsEmpty
    );
    // Deleting an empty slot reports it.
    assert_eq!(cs.delete(&root, 0).unwrap_err().e_kind, ErrKind::SlotIsEmpty);
}

#[test]
fn a_slot_never_holds_more_than_one_capability() {
    // Slot exclusivity, observed through the API: once a slot is
    // occupied, every further install into it is refused, so its content
    // is always zero or one capability.
    let (mut cs, root, ut) = fresh_space();
    assert!(cs
        .retype(&ut, CapabilityType::Endpoint, 512, &root, &vec![0])
        .is_ok());
    assert!(cs.copy(&root, 0, 1, CapRights::full()).is_ok());
    assert!(cs.copy(&root, 0, 1, CapRights::full()).is_err());
    assert!(cs
        .retype(&ut, CapabilityType::Endpoint, 512, &root, &vec![1])
        .is_err());
    assert!(cs.lookup(&root, 1).is_ok());
}
