use kernel::capability::CapRights;
use kernel::common::ErrKind;
use kernel::vspace::{AddrSpace, ENTRIES, PAGE_SIZE, USER_TOP};

fn rw() -> CapRights {
    CapRights {
        read: true,
        write: true,
        grant: false,
    }
}

#[test]
fn map_unmap_map_round_trip() {
    // map succeeds, a duplicate map at the same address fails
    // VaddressAlreadyMapped, unmap leaves no residue, and the same map
    // succeeds again.
    let mut s = AddrSpace::new(100);
    let va: usize = 3 * ENTRIES * PAGE_SIZE + 5 * PAGE_SIZE;
    assert!(s.map_table(101, va).is_ok());
    assert!(s.map_page(200, va, rw()).is_ok());
    assert_eq!(
        s.map_page(200, va, rw()).unwrap_err().e_kind,
        ErrKind::VaddressAlreadyMapped
    );
    assert!(s.unmap(va).is_ok());
    assert_eq!(s.unmap(va).unwrap_err().e_kind, ErrKind::PteNotFound);
    assert!(s.map_page(200, va, rw()).is_ok());
}

#[test]
fn missing_intermediate_table_is_reported() {
    let mut s = AddrSpace::new(100);
    let va: usize = 7 * ENTRIES * PAGE_SIZE;
    assert_eq!(
        s.map_page(200, va, rw()).unwrap_err().e_kind,
        ErrKind::PageTableNotMappedYet
    );
    assert_eq!(s.unmap(va).unwrap_err().e_kind, ErrKind::PteNotFound);
}

#[test]
fn installing_a_table_twice_is_refused() {
    let mut s = AddrSpace::new(100);
    let va: usize = 2 * ENTRIES * PAGE_SIZE;
    assert!(s.map_table(101, va).is_ok());
    assert_eq!(
        s.map_table(102, va + PAGE_SIZE).unwrap_err().e_kind,
        ErrKind::PageTableAlreadyMapped
    );
    // The same PageTable object cannot back a second region either.
    let other: usize = 9 * ENTRIES * PAGE_SIZE;
    assert_eq!(
        s.map_table(101, other).unwrap_err().e_kind,
        ErrKind::PageTableAlreadyMapped
    );
    // Nor can the root object double as a leaf table.
    assert_eq!(
        s.map_table(100, other).unwrap_err().e_kind,
        ErrKind::PageTableAlreadyMapped
    );
}

#[test]
fn a_page_maps_through_one_path_only() {
    let mut s = AddrSpace::new(100);
    let va1: usize = 0;
    let va2: usize = PAGE_SIZE;
    assert!(s.map_table(101, va1).is_ok());
    assert!(s.map_page(200, va1, rw()).is_ok());
    assert_eq!(
        s.map_page(200, va2, rw()).unwrap_err().e_kind,
        ErrKind::PageAlreadyMapped
    );
    // After unmapping, the page may move to the other address.
    assert!(s.unmap(va1).is_ok());
    assert!(s.map_page(200, va2, rw()).is_ok());
}

#[test]
fn malformed_addresses_are_rejected_before_any_walk() {
    let mut s = AddrSpace::new(100);
    assert_eq!(
        s.map_page(200, USER_TOP, rw()).unwrap_err().e_kind,
        ErrKind::InvalidUserAddress
    );
    assert_eq!(
        s.map_page(200, 123, rw()).unwrap_err().e_kind,
        ErrKind::InvalidUserAddress
    );
    assert_eq!(
        s.unmap(USER_TOP).unwrap_err().e_kind,
        ErrKind::InvalidUserAddress
    );
    assert_eq!(
        s.map_table(101, USER_TOP).unwrap_err().e_kind,
        ErrKind::InvalidUserAddress
    );
}
